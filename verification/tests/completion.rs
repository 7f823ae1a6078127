//! Completion and the flat snapshot, on trees of a small LaTeX grammar.

use badness::completion::candidates::{
    color_name_candidates, environment_candidates, label_candidates, package_candidates,
    static_candidates,
};
use badness::completion::context::{
    color_model_arg, color_name_arg, command_arg_context, command_name, enclosing_group, file_arg,
    group_index, group_prefix, package_arg, tikz_library_command,
};
use badness::completion::{
    candidates, classify_context, CandidateKind, CompletionCandidate, CompletionContext,
    FileArgKind,
};
use badness::ffi::{
    byte_to_utf16_offsets, complete_request_status, completion_snapshot, decode_source, is_lossless,
    parse_request_status, parse_utf16_snapshot, snapshot, trivia_flag, utf16_to_byte_offset,
    BadnessStatus, BadnessTree, ParseError, Parsed, BADNESS_NODE_TOKEN, BADNESS_NODE_TRIVIA,
    BADNESS_NONE,
};
use badness::semantic::bundle::{
    builtin, cwl, meta, Bundle, ColorsData, CwlDb, Signatures, TikzLibrariesData,
};
use badness::semantic::model::{KeyCommands, SemanticModel};
use badness::semantic::raw::{RawArg, RawArgKind, RawCommand, RawDb, RawEnvironment};
use badness::semantic::signature::{command, CommandSig, EnvironmentSig, SignatureDb};
use badness::syntax::{SyntaxKind, SyntaxTree, WalkStep};
use rowan::GreenNodeBuilder;

const ROOT: u16 = 0;
const COMMAND: u16 = 1;
const BEGIN: u16 = 2;
const END: u16 = 3;
const ENVIRONMENT: u16 = 4;
const GROUP: u16 = 5;
const NAME_GROUP: u16 = 6;
const CONTROL_WORD: u16 = 7;
const CONTROL_SYMBOL: u16 = 8;
const L_BRACE: u16 = 9;
const R_BRACE: u16 = 10;
const WHITESPACE: u16 = 11;
const NEWLINE: u16 = 12;
const COMMENT: u16 = 13;
const OPTIONAL: u16 = 14;
const WORD: u16 = 15;
const L_BRACKET: u16 = 16;
const R_BRACKET: u16 = 17;

fn kinds() -> Vec<SyntaxKind> {
    vec![
        SyntaxKind::ROOT,
        SyntaxKind::COMMAND,
        SyntaxKind::BEGIN,
        SyntaxKind::END,
        SyntaxKind::ENVIRONMENT,
        SyntaxKind::GROUP,
        SyntaxKind::NAME_GROUP,
        SyntaxKind::CONTROL_WORD,
        SyntaxKind::CONTROL_SYMBOL,
        SyntaxKind::L_BRACE,
        SyntaxKind::R_BRACE,
        SyntaxKind::WHITESPACE,
        SyntaxKind::NEWLINE,
        SyntaxKind::COMMENT,
    ]
}

/// The tokens of a source: kind, text and byte offset.
fn lex(src: &str) -> Vec<(u16, String, usize)> {
    let mut tokens = Vec::new();
    let mut rest = src;
    while let Some(first) = rest.chars().next() {
        let run = |keep: &dyn Fn(char) -> bool| -> usize {
            rest.chars()
                .take_while(|&c| keep(c))
                .map(char::len_utf8)
                .sum()
        };
        let special = |c: char| "\\{}[]% \t\n".contains(c);
        let (kind, size) = match first {
            '\\' => {
                let letters: usize = rest[1..]
                    .chars()
                    .take_while(char::is_ascii_alphabetic)
                    .count();
                if letters > 0 {
                    (CONTROL_WORD, 1 + letters)
                } else {
                    let next = rest[1..].chars().next();
                    (CONTROL_SYMBOL, 1 + next.map_or(0, char::len_utf8))
                }
            }
            '{' => (L_BRACE, 1),
            '}' => (R_BRACE, 1),
            '[' => (L_BRACKET, 1),
            ']' => (R_BRACKET, 1),
            '\n' => (NEWLINE, 1),
            '%' => (COMMENT, run(&|c| c != '\n')),
            ' ' | '\t' => (WHITESPACE, run(&|c| c == ' ' || c == '\t')),
            _ => (WORD, run(&|c| !special(c))),
        };
        let start = src.len() - rest.len();
        tokens.push((kind, rest[..size].to_string(), start));
        rest = &rest[size..];
    }
    tokens
}

struct Parser {
    tokens: Vec<(u16, String, usize)>,
    at: usize,
    builder: GreenNodeBuilder<'static>,
    errors: Vec<ParseError>,
}

impl Parser {
    fn kind(&self) -> Option<u16> {
        self.tokens.get(self.at).map(|token| token.0)
    }

    fn text(&self) -> &str {
        self.tokens.get(self.at).map_or("", |token| &token.1)
    }

    fn start(&mut self, kind: u16) {
        self.builder.start_node(rowan::SyntaxKind(kind));
    }

    fn finish(&mut self) {
        self.builder.finish_node();
    }

    fn bump(&mut self) {
        let (kind, text, _) = &self.tokens[self.at];
        self.builder.token(rowan::SyntaxKind(*kind), text);
        self.at += 1;
    }

    fn group(&mut self, kind: u16) {
        let open = self.tokens[self.at].2;
        self.start(kind);
        self.bump();
        self.items(Some(R_BRACE));
        if self.kind() == Some(R_BRACE) {
            self.bump();
        } else {
            self.errors.push(ParseError {
                start: open,
                end: open + 1,
                message: "unclosed `{`".to_string(),
            });
        }
        self.finish();
    }

    fn optional(&mut self) {
        self.start(OPTIONAL);
        self.bump();
        while self.kind().is_some() && self.kind() != Some(R_BRACKET) {
            self.bump();
        }
        if self.kind() == Some(R_BRACKET) {
            self.bump();
        }
        self.finish();
    }

    fn delimiter(&mut self, kind: u16) {
        self.start(kind);
        self.bump();
        if self.kind() == Some(L_BRACE) {
            self.group(NAME_GROUP);
        }
        self.finish();
    }

    fn items(&mut self, stop: Option<u16>) {
        while let Some(kind) = self.kind() {
            if Some(kind) == stop || (kind == CONTROL_WORD && self.text() == "\\end") {
                return;
            }
            match kind {
                CONTROL_WORD if self.text() == "\\begin" => {
                    self.start(ENVIRONMENT);
                    self.delimiter(BEGIN);
                    self.items(stop);
                    if self.text() == "\\end" {
                        self.delimiter(END);
                    }
                    self.finish();
                }
                CONTROL_WORD => {
                    self.start(COMMAND);
                    self.bump();
                    loop {
                        match self.kind() {
                            Some(L_BRACE) => self.group(GROUP),
                            Some(L_BRACKET) => self.optional(),
                            _ => break,
                        }
                    }
                    self.finish();
                }
                L_BRACE => self.group(GROUP),
                _ => self.bump(),
            }
        }
    }
}

fn parse(src: &str) -> Parsed {
    let mut parser = Parser {
        tokens: lex(src),
        at: 0,
        builder: GreenNodeBuilder::new(),
        errors: Vec::new(),
    };
    parser.start(ROOT);
    while parser.kind().is_some() {
        parser.items(None);
        if parser.text() == "\\end" {
            parser.delimiter(END);
        }
    }
    parser.finish();
    let green = parser.builder.finish();
    let tree = SyntaxTree::from_green(&green, &kinds()).expect("small enough");
    Parsed {
        tree,
        errors: parser.errors,
    }
}

fn root(src: &str) -> SyntaxTree {
    parse(src).tree
}

fn names(list: &[&str]) -> Vec<String> {
    list.iter().map(|name| name.to_string()).collect()
}

fn keys() -> KeyCommands {
    KeyCommands {
        refs: names(&["ref", "cref", "pageref"]),
        cites: names(&["cite", "citep", "citet"]),
        glossary: names(&["gls", "glslink", "acrshort", "ACRfullpl", "glsxtrlong"]),
    }
}

fn raw_command(args: usize, sectioning: Option<u8>) -> RawCommand {
    RawCommand {
        args: vec![RawArg::Short(RawArgKind::Req); args],
        sectioning,
        verbatim: false,
        verbatim_delimited: false,
        rule: false,
        inline: false,
    }
}

fn raw_environment(list: bool) -> RawEnvironment {
    RawEnvironment {
        args: vec![],
        verbatim_body: false,
        verbatim_arg: false,
        math: false,
        code: false,
        align: false,
        no_indent: false,
        list,
        block: false,
        outline: None,
    }
}

fn curated() -> RawDb {
    RawDb {
        commands: vec![
            ("subsubsection".to_string(), raw_command(1, Some(4))),
            ("section".to_string(), raw_command(1, Some(2))),
            ("subsection".to_string(), raw_command(1, Some(3))),
            ("label".to_string(), raw_command(1, None)),
        ],
        environments: vec![
            ("itemize".to_string(), raw_environment(true)),
            ("itshape".to_string(), raw_environment(false)),
            ("center".to_string(), raw_environment(false)),
        ],
    }
}

fn phf_map<V>(entries: Vec<(&'static str, V)>) -> &'static phf::Map<&'static str, V> {
    let keys: Vec<&'static str> = entries.iter().map(|entry| entry.0).collect();
    let state = phf_generator::generate_hash(&keys);
    let mut slots: Vec<Option<(&'static str, V)>> = entries.into_iter().map(Some).collect();
    let ordered: Vec<(&'static str, V)> = state
        .map
        .iter()
        .map(|&index| slots[index].take().expect("each entry once"))
        .collect();
    Box::leak(Box::new(phf::Map {
        key: state.key,
        disps: Box::leak(state.disps.into_boxed_slice()),
        entries: Box::leak(ordered.into_boxed_slice()),
    }))
}

fn arity() -> CommandSig {
    command(&[], None, false, false, false)
}

fn bundle() -> Bundle {
    let environment = EnvironmentSig::from(raw_environment(false));
    Bundle::load(
        curated(),
        CwlDb::baked(
            phf_map(vec![
                ("section", arity()),
                ("sisetup", arity()),
                ("SI", arity()),
            ]),
            phf_map(vec![("itembox", environment)]),
        ),
        "# ranked\namsmath\ntikz\namsthm\n---\ntikzmark\namsmidx\ntitlesec\n",
        "article\nbook\n---\nartikel3\n",
        ColorsData {
            names: names(&["red", "RoyalBlue", "blue", "RoyalPurple", "Rhodamine"]),
            models: names(&["rgb", "RGB", "HTML", "cmyk", "gray"]),
        },
        TikzLibrariesData {
            tikz: names(&["arrows.meta", "calc", "fit"]),
            pgf: names(&["plothandlers", "arrows", "plotmarks"]),
        },
        r#"{
            "pagenumbering": { "0": ["arabic", "roman", "Roman", "alph", "Alph"] },
            "pagestyle": { "0": ["empty", "plain", "headings", "myheadings"] },
            "ref": { "0": ["never"], "1": ["second"] }
        }"#,
        phf_map(vec![("amsmath", meta(None, None))]),
    )
    .expect("valid tables")
}

/// Byte offset just past `needle` in `src`.
fn at(src: &str, needle: &str) -> usize {
    src.find(needle).expect("needle present") + needle.len()
}

fn classify(src: &str, offset: usize) -> CompletionContext {
    classify_context(&root(src), offset, &keys(), &bundle())
}

/// The first brace arguments of every `command` in `src`.
fn arguments(src: &str, command: &str) -> Vec<String> {
    src.match_indices(command)
        .map(|(start, _)| {
            let rest = &src[start + command.len()..];
            rest[..rest.find('}').expect("closed")].to_string()
        })
        .collect()
}

fn scan(src: &str) -> (SignatureDb, SemanticModel) {
    let mut sigs = SignatureDb::default();
    for name in arguments(src, "\\newcommand{\\") {
        sigs.insert_command(&name, CommandSig::default());
    }
    let mut color_defs = arguments(src, "\\definecolor{");
    color_defs.extend(arguments(src, "\\colorlet{"));
    let labels = arguments(src, "\\label{");
    (sigs, SemanticModel { labels, color_defs })
}

fn labels(src: &str, offset: usize) -> Vec<String> {
    let bundle = bundle();
    let context = classify_context(&root(src), offset, &keys(), &bundle);
    let (sigs, model) = scan(src);
    candidates(&context, &sigs, &model, &bundle)
        .into_iter()
        .map(|c| c.label)
        .collect()
}

#[test]
fn command_prefix_classified() {
    let src = "\\se\n";
    assert_eq!(
        classify(src, at(src, "\\se")),
        CompletionContext::CommandName {
            prefix: "se".to_string()
        }
    );
}

#[test]
fn command_candidates_match_prefix() {
    let src = "\\sub\n";
    let got = labels(src, at(src, "\\sub"));
    assert!(got.contains(&"subsection".to_string()), "{got:?}");
    assert!(got.contains(&"subsubsection".to_string()), "{got:?}");
    assert!(got.iter().all(|n| n.starts_with("sub")), "{got:?}");
}

#[test]
fn command_candidates_include_scanned_define() {
    let src = "\\newcommand{\\sefoo}{x}\n\\se\n";
    let got = labels(src, at(src, "\n\\se"));
    assert!(got.contains(&"sefoo".to_string()), "{got:?}");
    assert!(got.contains(&"section".to_string()), "{got:?}");
}

#[test]
fn command_candidates_include_cwl_tier() {
    let bundle = bundle();
    let name = cwl(&bundle)
        .command_names()
        .into_iter()
        .find(|n| n.len() > 4 && n.chars().all(|c| c.is_ascii_alphabetic()))
        .expect("an alphabetic CWL command name")
        .to_string();
    let prefix = &name[..3];
    let src = format!("\\{prefix}\n");
    let got = labels(&src, at(&src, &format!("\\{prefix}")));
    assert!(
        got.contains(&name.to_string()),
        "{name} missing from {got:?}"
    );
    assert_eq!(
        got.iter().filter(|n| n.as_str() == name).count(),
        1,
        "deduped"
    );
}

#[test]
fn lone_backslash_offers_all_commands() {
    let src = "\\";
    let ctx = classify(src, at(src, "\\"));
    assert_eq!(
        ctx,
        CompletionContext::CommandName {
            prefix: String::new()
        }
    );
}

#[test]
fn begin_name_classified_with_snippet() {
    let src = "\\begin{item}\n";
    let offset = at(src, "\\begin{item");
    assert_eq!(
        classify(src, offset),
        CompletionContext::EnvironmentName {
            prefix: "item".to_string(),
            closing: false,
        }
    );
    let cands = candidates(
        &classify(src, offset),
        &SignatureDb::default(),
        &scan(src).1,
        &bundle(),
    );
    let itemize = cands
        .iter()
        .find(|c| c.label == "itemize")
        .expect("itemize candidate");
    assert!(itemize.snippet);
    assert_eq!(
        itemize.insert_text.as_deref(),
        Some("itemize}\n\t$0\n\\end{itemize}")
    );
}

#[test]
fn end_name_classified_plain() {
    let src = "\\begin{itemize}\n\\end{it}\n";
    let offset = at(src, "\\end{it");
    assert_eq!(
        classify(src, offset),
        CompletionContext::EnvironmentName {
            prefix: "it".to_string(),
            closing: true,
        }
    );
    let cands = candidates(
        &classify(src, offset),
        &SignatureDb::default(),
        &scan(src).1,
        &bundle(),
    );
    let itemize = cands.iter().find(|c| c.label == "itemize").unwrap();
    assert!(!itemize.snippet);
    assert!(itemize.insert_text.is_none());
}

#[test]
fn empty_begin_group_offers_environments() {
    let src = "\\begin{}\n";
    let got = labels(src, at(src, "\\begin{"));
    assert!(got.contains(&"itemize".to_string()), "{got:?}");
}

#[test]
fn ref_key_classified_and_completed() {
    let src = "\\label{sec:intro}\n\\ref{sec}\n";
    let offset = at(src, "\\ref{sec");
    assert_eq!(
        classify(src, offset),
        CompletionContext::LabelRef {
            prefix: "sec".to_string()
        }
    );
    let got = labels(src, offset);
    assert_eq!(got, vec!["sec:intro".to_string()]);
}

#[test]
fn cref_completes_key_after_last_comma() {
    let src = "\\label{a:one}\\label{a:two}\n\\cref{a:one,a}\n";
    let offset = at(src, "\\cref{a:one,a");
    assert_eq!(
        classify(src, offset),
        CompletionContext::LabelRef {
            prefix: "a".to_string()
        }
    );
    let got = labels(src, offset);
    assert!(got.contains(&"a:one".to_string()), "{got:?}");
    assert!(got.contains(&"a:two".to_string()), "{got:?}");
}

#[test]
fn includegraphics_is_file_path() {
    let src = "\\includegraphics{img/lo}\n";
    assert_eq!(
        classify(src, at(src, "\\includegraphics{img/lo")),
        CompletionContext::FilePath {
            prefix: "img/lo".to_string(),
            kind: FileArgKind::Graphics,
        }
    );
}

#[test]
fn includegraphics_with_option_is_file_path() {
    let src = "\\includegraphics[width=2cm]{fig}\n";
    assert_eq!(
        classify(src, at(src, "{fig")),
        CompletionContext::FilePath {
            prefix: "fig".to_string(),
            kind: FileArgKind::Graphics,
        }
    );
}

#[test]
fn input_is_tex_source_path() {
    let src = "\\input{chapters/intro}\n";
    assert_eq!(
        classify(src, at(src, "{chapters/intro")),
        CompletionContext::FilePath {
            prefix: "chapters/intro".to_string(),
            kind: FileArgKind::TexSource,
        }
    );
}

#[test]
fn usepackage_is_package_name() {
    let src = "\\usepackage{amsm}\n";
    assert_eq!(
        classify(src, at(src, "\\usepackage{amsm")),
        CompletionContext::PackageName {
            prefix: "amsm".to_string(),
            kind: FileArgKind::Package,
        }
    );
}

#[test]
fn usepackage_with_option_is_package_name() {
    let src = "\\usepackage[utf8]{inp}\n";
    assert_eq!(
        classify(src, at(src, "{inp")),
        CompletionContext::PackageName {
            prefix: "inp".to_string(),
            kind: FileArgKind::Package,
        }
    );
}

#[test]
fn usepackage_completes_name_after_last_comma() {
    let src = "\\usepackage{amsmath,gra}\n";
    assert_eq!(
        classify(src, at(src, "\\usepackage{amsmath,gra")),
        CompletionContext::PackageName {
            prefix: "gra".to_string(),
            kind: FileArgKind::Package,
        }
    );
}

#[test]
fn documentclass_is_class_name() {
    let src = "\\documentclass{art}\n";
    assert_eq!(
        classify(src, at(src, "\\documentclass{art")),
        CompletionContext::PackageName {
            prefix: "art".to_string(),
            kind: FileArgKind::Class,
        }
    );
}

#[test]
fn package_candidates_match_prefix_and_include_amsmath() {
    let src = "\\usepackage{amsm}\n";
    let got = labels(src, at(src, "\\usepackage{amsm"));
    assert!(got.contains(&"amsmath".to_string()), "{got:?}");
    assert!(got.iter().all(|n| n.starts_with("amsm")), "{got:?}");
}

#[test]
fn class_candidates_include_article() {
    let src = "\\documentclass{art}\n";
    let got = labels(src, at(src, "\\documentclass{art"));
    assert!(got.contains(&"article".to_string()), "{got:?}");
    assert!(got.iter().all(|n| n.starts_with("art")), "{got:?}");
}

#[test]
fn package_candidates_preserve_rank_order() {
    let src = "\\usepackage{ti}\n";
    let got = labels(src, at(src, "\\usepackage{ti"));
    let tikz = got.iter().position(|n| n == "tikz");
    assert!(tikz.is_some(), "tikz present: {got:?}");
    assert_eq!(got, names(&["tikz", "tikzmark", "titlesec"]));
}

#[test]
fn cite_is_classified_as_citation_key() {
    let src = "\\cite{key}\n";
    assert_eq!(
        classify(src, at(src, "\\cite{ke")),
        CompletionContext::CitationKey {
            prefix: "ke".to_string()
        }
    );
}

#[test]
fn citep_completes_key_after_last_comma() {
    let src = "\\citep{a,b}\n";
    assert_eq!(
        classify(src, at(src, "\\citep{a,b")),
        CompletionContext::CitationKey {
            prefix: "b".to_string()
        }
    );
}

#[test]
fn citation_key_candidates_empty_from_pure() {
    let src = "\\cite{ke}\n";
    let ctx = classify(src, at(src, "\\cite{ke"));
    let cands = candidates(&ctx, &SignatureDb::default(), &scan(src).1, &bundle());
    assert!(cands.is_empty());
}

#[test]
fn gls_is_classified_as_glossary_key() {
    let src = "\\gls{ex}\n";
    assert_eq!(
        classify(src, at(src, "\\gls{e")),
        CompletionContext::GlossaryKey {
            prefix: "e".to_string()
        }
    );
}

#[test]
fn acrshort_and_glsxtr_classify_as_glossary_key() {
    for src in [
        "\\acrshort{fps}\n",
        "\\ACRfullpl{fps}\n",
        "\\glsxtrlong{fps}\n",
    ] {
        assert_eq!(
            classify(src, at(src, "{fp")),
            CompletionContext::GlossaryKey {
                prefix: "fp".to_string()
            },
            "{src:?}"
        );
    }
}

#[test]
fn glslink_key_group_only_classifies() {
    let src = "\\glslink{ex}{shown text}\n";
    assert_eq!(
        classify(src, at(src, "\\glslink{e")),
        CompletionContext::GlossaryKey {
            prefix: "e".to_string()
        }
    );
    assert_eq!(classify(src, at(src, "{shown")), CompletionContext::Nothing);
}

#[test]
fn gls_key_is_not_comma_split() {
    let src = "\\gls{a,b}\n";
    assert_eq!(
        classify(src, at(src, "\\gls{a,b")),
        CompletionContext::GlossaryKey {
            prefix: "a,b".to_string()
        }
    );
}

#[test]
fn glossary_key_candidates_empty_from_pure() {
    let src = "\\newacronym{aa}{AA}{an acronym}\n\\gls{a}\n";
    let ctx = classify(src, at(src, "\\gls{a"));
    let cands = candidates(&ctx, &SignatureDb::default(), &scan(src).1, &bundle());
    assert!(cands.is_empty());
}

#[test]
fn prose_is_not_completed() {
    let src = "Hello world\n";
    assert_eq!(
        classify(src, at(src, "Hello wo")),
        CompletionContext::Nothing
    );
}

#[test]
fn textcolor_first_arg_is_color_name() {
    let src = "\\textcolor{re}{x}\n";
    assert_eq!(
        classify(src, at(src, "\\textcolor{re")),
        CompletionContext::ColorName {
            prefix: "re".to_string()
        }
    );
}

#[test]
fn color_second_arg_is_not_a_color_name() {
    let src = "\\textcolor{red}{te}\n";
    assert_eq!(
        classify(src, at(src, "\\textcolor{red}{te")),
        CompletionContext::Nothing
    );
}

#[test]
fn colorlet_new_name_arg_is_not_completed() {
    let src = "\\colorlet{min}{red}\n";
    assert_eq!(
        classify(src, at(src, "\\colorlet{min")),
        CompletionContext::Nothing
    );
}

#[test]
fn colorlet_base_arg_is_color_name() {
    let src = "\\colorlet{mine}{re}\n";
    assert_eq!(
        classify(src, at(src, "\\colorlet{mine}{re")),
        CompletionContext::ColorName {
            prefix: "re".to_string()
        }
    );
}

#[test]
fn definecolor_model_arg_is_color_model() {
    let src = "\\definecolor{c}{rg}{1,0,0}\n";
    assert_eq!(
        classify(src, at(src, "\\definecolor{c}{rg")),
        CompletionContext::ColorModel {
            prefix: "rg".to_string()
        }
    );
}

#[test]
fn usetikzlibrary_is_tikz_library() {
    let src = "\\usetikzlibrary{cal}\n";
    assert_eq!(
        classify(src, at(src, "\\usetikzlibrary{cal")),
        CompletionContext::TikzLibrary {
            prefix: "cal".to_string(),
            pgf: false,
        }
    );
}

#[test]
fn usetikzlibrary_completes_after_last_comma() {
    let src = "\\usetikzlibrary{calc,ar}\n";
    assert_eq!(
        classify(src, at(src, "\\usetikzlibrary{calc,ar")),
        CompletionContext::TikzLibrary {
            prefix: "ar".to_string(),
            pgf: false,
        }
    );
}

#[test]
fn usepgflibrary_is_pgf_library() {
    let src = "\\usepgflibrary{arr}\n";
    assert_eq!(
        classify(src, at(src, "\\usepgflibrary{arr")),
        CompletionContext::TikzLibrary {
            prefix: "arr".to_string(),
            pgf: true,
        }
    );
}

#[test]
fn color_name_candidates_include_base_and_dvipsnames() {
    let src = "\\textcolor{re}{x}\n";
    let got = labels(src, at(src, "\\textcolor{re"));
    assert!(got.contains(&"red".to_string()));
    let src = "\\textcolor{Ro}{x}\n";
    let got = labels(src, at(src, "\\textcolor{Ro"));
    assert!(got.contains(&"RoyalBlue".to_string()));
    assert!(got.iter().all(|n| n.starts_with("Ro")));
}

#[test]
fn color_name_candidates_include_document_colors() {
    let src = "\\definecolor{mycolor}{rgb}{1,0,0}\n\\textcolor{myc}{x}\n";
    let got = labels(src, at(src, "\\textcolor{myc"));
    assert_eq!(got, vec!["mycolor".to_string()]);
}

#[test]
fn colorlet_defines_a_document_color() {
    let src = "\\colorlet{brand}{blue}\n\\color{bra}\n";
    let got = labels(src, at(src, "\\color{bra"));
    assert_eq!(got, vec!["brand".to_string()]);
}

#[test]
fn color_model_candidates_include_rgb() {
    let src = "\\definecolor{c}{rg}{1,0,0}\n";
    let got = labels(src, at(src, "\\definecolor{c}{rg"));
    assert_eq!(got, vec!["rgb".to_string()]);
}

#[test]
fn pagestyle_arg_is_enum() {
    let src = "\\pagestyle{pl}\n";
    assert_eq!(
        classify(src, at(src, "\\pagestyle{pl")),
        CompletionContext::ArgumentEnum {
            prefix: "pl".to_string(),
            values: vec![
                "empty".to_string(),
                "plain".to_string(),
                "headings".to_string(),
                "myheadings".to_string(),
            ],
        }
    );
}

#[test]
fn enum_candidates_filter_by_prefix() {
    let src = "\\pagestyle{pl}\n";
    let got = labels(src, at(src, "\\pagestyle{pl"));
    assert_eq!(got, vec!["plain".to_string()]);
}

#[test]
fn empty_enum_arg_offers_all_values() {
    let src = "\\pagenumbering{}\n";
    let got = labels(src, at(src, "\\pagenumbering{"));
    assert_eq!(got, vec!["arabic", "roman", "Roman", "alph", "Alph"]);
}

#[test]
fn non_enum_command_arg_is_not_completed() {
    let src = "\\label{sec}\n";
    assert_eq!(
        classify(src, at(src, "\\label{sec")),
        CompletionContext::Nothing
    );
}

#[test]
fn tikz_library_candidates_are_split_by_command() {
    let src = "\\usetikzlibrary{cal}\n";
    assert!(labels(src, at(src, "\\usetikzlibrary{cal")).contains(&"calc".to_string()));
    let src = "\\usepgflibrary{plot}\n";
    let got = labels(src, at(src, "\\usepgflibrary{plot"));
    assert!(got.contains(&"plothandlers".to_string()));
}

#[test]
fn snapshot_uses_utf16_ranges_and_linked_children() {
    let source = "a😀\\frac{1}";
    let source_utf16: Vec<u16> = source.encode_utf16().collect();
    let tree = parse_utf16_snapshot(&source_utf16, parse).unwrap();

    let command = tree
        .nodes()
        .iter()
        .find(|node| node.kind == CONTROL_WORD)
        .unwrap();
    assert_eq!((command.start_utf16, command.end_utf16), (3, 8));
    assert_eq!(
        String::from_utf16(
            &source_utf16[command.start_utf16 as usize..command.end_utf16 as usize]
        )
        .unwrap(),
        "\\frac"
    );

    for (id, node) in tree.nodes().iter().enumerate() {
        let mut child = node.first_child;
        while child != BADNESS_NONE {
            assert_eq!(tree.nodes()[child as usize].parent, id as u32);
            child = tree.nodes()[child as usize].next_sibling;
        }
    }
}

#[test]
fn unclosed_group_reports_a_utf16_ranged_diagnostic() {
    let source = "a😀{unclosed";
    let source_utf16: Vec<u16> = source.encode_utf16().collect();
    let tree = parse_utf16_snapshot(&source_utf16, parse).unwrap();

    assert_eq!(tree.diagnostics().len(), 1);
    let diag = &tree.diagnostics()[0];
    assert_eq!((diag.start_utf16, diag.end_utf16), (3, 4));
    assert!(diag.message.contains("unclosed"), "{}", diag.message);
    assert_eq!(diag.message, "unclosed `{`");
    assert_eq!(diag.message_len(), 12);
}

#[test]
fn invalid_utf16_is_rejected_without_a_tree() {
    assert!(matches!(
        parse_utf16_snapshot(&[0xD800], parse),
        Err(BadnessStatus::InvalidInput)
    ));
}

#[test]
fn badness_parse_utf16_rejects_a_null_out_tree() {
    assert_eq!(
        parse_request_status(false, 1, true),
        BadnessStatus::NullPointer
    );
}

#[test]
fn badness_parse_utf16_rejects_a_null_source_with_nonzero_len() {
    assert_eq!(
        parse_request_status(true, 1, false),
        BadnessStatus::NullPointer
    );
}

#[test]
fn badness_parse_utf16_accepts_a_null_source_when_len_is_zero() {
    assert_eq!(parse_request_status(true, 0, false), BadnessStatus::Success);
    assert_eq!(parse_request_status(false, 1, false), BadnessStatus::Success);
    assert!(parse_utf16_snapshot(&[], parse).is_ok());
}

#[test]
fn badness_parse_utf16_round_trips_through_the_real_entry_point() {
    let source: Vec<u16> = "\\frac{1}{2}".encode_utf16().collect();
    let tree = parse_utf16_snapshot(&source, parse).unwrap();
    assert!(!tree.nodes().is_empty());
    assert_eq!(tree.nodes()[0].kind, ROOT);
    assert!(tree.diagnostics().is_empty());
}

#[test]
fn completion_returns_utf8_candidates_from_the_tree_snapshot() {
    let source = "\\sec";
    let source_utf16: Vec<u16> = source.encode_utf16().collect();
    let tree = parse_utf16_snapshot(&source_utf16, parse).unwrap();
    let (sigs, model) = scan(source);
    let completion = tree.complete(
        source_utf16.len() as u32,
        &sigs,
        &model,
        &keys(),
        &bundle(),
    );
    assert!(!completion.candidates().is_empty());
    assert_eq!(completion.records().len(), completion.candidates().len());
    let section = completion
        .records()
        .iter()
        .zip(completion.candidates())
        .find(|(record, candidate)| {
            record.kind == CandidateKind::Command.code() && candidate.label == "section"
        });
    let (record, _) = section.unwrap();
    assert_eq!(record.label_len, 7);
    assert!(!record.has_insert_text && !record.snippet);
    assert_eq!(record.insert_text_len, 0);
}

#[test]
fn utf16_offsets_clamp_to_valid_utf8_boundaries() {
    let text = "a😀z";
    assert_eq!(utf16_to_byte_offset(text, 0), 0);
    assert_eq!(utf16_to_byte_offset(text, 1), 1);
    assert_eq!(utf16_to_byte_offset(text, 2), 1);
    assert_eq!(utf16_to_byte_offset(text, 3), 5);
    assert_eq!(utf16_to_byte_offset(text, 99), text.len());
}

#[test]
fn completion_rejects_null_inputs() {
    assert_eq!(
        complete_request_status(true, true),
        BadnessStatus::NullPointer
    );
    assert_eq!(
        complete_request_status(true, false),
        BadnessStatus::NullPointer
    );
    assert_eq!(
        complete_request_status(false, true),
        BadnessStatus::NullPointer
    );
    assert_eq!(complete_request_status(false, false), BadnessStatus::Success);
}

#[test]
fn cursor_inside_a_word_completes_what_is_in_front_of_it() {
    let src = "x \\section y";
    assert_eq!(
        classify(src, at(src, "\\sec")),
        CompletionContext::CommandName {
            prefix: "sec".to_string()
        }
    );
    assert_eq!(
        classify(src, at(src, "\\section")),
        CompletionContext::CommandName {
            prefix: "section".to_string()
        }
    );
    assert_eq!(
        classify(src, at(src, "\\")),
        CompletionContext::CommandName {
            prefix: String::new()
        }
    );
    assert_eq!(classify(src, at(src, "x ")), CompletionContext::Nothing);
    assert_eq!(classify(src, src.len()), CompletionContext::Nothing);
    assert_eq!(classify("", 0), CompletionContext::Nothing);
}

#[test]
fn cursor_inside_a_character_takes_the_whole_token() {
    let src = "\\ref{né}";
    assert_eq!(
        classify(src, at(src, "{n") + 1),
        CompletionContext::LabelRef {
            prefix: "né".to_string()
        }
    );
    assert_eq!(
        classify(src, at(src, "{né")),
        CompletionContext::LabelRef {
            prefix: "né".to_string()
        }
    );
}

#[test]
fn control_symbol_is_no_command_name() {
    let src = "a\\%b";
    assert_eq!(classify(src, at(src, "\\%")), CompletionContext::Nothing);
    assert_eq!(classify(src, at(src, "a\\")), CompletionContext::Nothing);
}

#[test]
fn group_of_a_nested_command_does_not_leak() {
    let src = "\\ref{\\emph x}";
    assert_eq!(
        classify(src, at(src, "\\em")),
        CompletionContext::CommandName {
            prefix: "em".to_string()
        }
    );
    let src = "\\ref{a\\emph[x]b}";
    assert_eq!(classify(src, at(src, "[x")), CompletionContext::Nothing);
    assert_eq!(
        classify(src, at(src, "]b")),
        CompletionContext::LabelRef {
            prefix: "a\\emph[x]b".to_string()
        }
    );
}

#[test]
fn typed_path_keeps_the_text_of_nested_commands() {
    let src = "\\input{\\foo/c}\n";
    let tree = root(src);
    let group = (0..tree.len())
        .find(|&i| tree.kind(i) == SyntaxKind::GROUP)
        .unwrap();
    assert_eq!(group_prefix(&tree, group, 13), "\\foo/c");
    assert_eq!(
        classify(src, 13),
        CompletionContext::FilePath {
            prefix: "\\foo/c".to_string(),
            kind: FileArgKind::TexSource,
        }
    );
    let src = "\\includegraphics{{a.b}\\dir{x}/c}{later}";
    assert_eq!(
        classify(src, at(src, "/c")),
        CompletionContext::FilePath {
            prefix: "{a.b}\\dir{x}/c".to_string(),
            kind: FileArgKind::Graphics,
        }
    );
}

#[test]
fn group_without_a_command_asks_for_nothing() {
    let src = "{abc}";
    assert_eq!(classify(src, 3), CompletionContext::Nothing);
}

#[test]
fn right_hand_group_answers_when_the_left_does_not() {
    let src = "\\begin{center}{x}\\end{center}";
    assert_eq!(
        classify(src, at(src, "\\begin{center")),
        CompletionContext::EnvironmentName {
            prefix: "center".to_string(),
            closing: false,
        }
    );
    let src = "\\usepackage[a]{tikz}";
    assert_eq!(
        classify(src, at(src, "[a]")),
        CompletionContext::PackageName {
            prefix: String::new(),
            kind: FileArgKind::Package,
        }
    );
}

#[test]
fn list_items_are_trimmed_at_their_start() {
    let src = "\\usepackage{amsmath,\n  ti }";
    assert_eq!(
        classify(src, at(src, "ti ")),
        CompletionContext::PackageName {
            prefix: "ti ".to_string(),
            kind: FileArgKind::Package,
        }
    );
    assert_eq!(
        classify(src, at(src, "amsmath,")),
        CompletionContext::PackageName {
            prefix: String::new(),
            kind: FileArgKind::Package,
        }
    );
}

#[test]
fn specific_argument_wins_over_the_table() {
    let src = "\\ref{a}{s}";
    assert_eq!(
        classify(src, at(src, "{a")),
        CompletionContext::LabelRef {
            prefix: "a".to_string()
        }
    );
    assert_eq!(
        classify(src, at(src, "{s")),
        CompletionContext::ArgumentEnum {
            prefix: "s".to_string(),
            values: names(&["second"]),
        }
    );
}

#[test]
fn arguments_are_recognised_by_name_and_position() {
    for name in ["color", "textcolor", "colorbox", "pagecolor"] {
        assert!(color_name_arg(name, 0) && !color_name_arg(name, 1), "{name}");
    }
    assert!(color_name_arg("fcolorbox", 0) && color_name_arg("fcolorbox", 1));
    assert!(!color_name_arg("fcolorbox", 2));
    assert!(!color_name_arg("colorlet", 0) && color_name_arg("colorlet", 1));
    assert!(!color_name_arg("Color", 0));
    assert!(color_model_arg("definecolor", 1) && color_model_arg("providecolor", 1));
    assert!(!color_model_arg("definecolor", 0) && !color_model_arg("definecolors", 1));
    assert_eq!(tikz_library_command("usetikzlibrary"), Some(false));
    assert_eq!(tikz_library_command("usepgflibrary"), Some(true));
    assert_eq!(tikz_library_command("usepackage"), None);
    for name in ["usepackage", "RequirePackage"] {
        assert_eq!(package_arg(name), Some(FileArgKind::Package), "{name}");
    }
    for name in ["documentclass", "LoadClass", "LoadClassWithOptions"] {
        assert_eq!(package_arg(name), Some(FileArgKind::Class), "{name}");
    }
    assert_eq!(package_arg("input"), None);
    assert_eq!(file_arg("includegraphics"), Some((FileArgKind::Graphics, 0)));
    for name in ["input", "include", "subfile"] {
        assert_eq!(file_arg(name), Some((FileArgKind::TexSource, 0)), "{name}");
    }
    for name in ["import", "subimport"] {
        assert_eq!(file_arg(name), Some((FileArgKind::TexSource, 1)), "{name}");
    }
    for name in ["bibliography", "addbibresource"] {
        assert_eq!(file_arg(name), Some((FileArgKind::Bib, 0)), "{name}");
    }
    assert_eq!(file_arg("usepackage"), None);
}

#[test]
fn argument_contexts_follow_the_typed_text() {
    let (keys, bundle) = (keys(), bundle());
    let ask = |name: &str, index: usize, typed: &str| {
        command_arg_context(name, index, typed.to_string(), &keys, &bundle)
    };
    assert_eq!(
        ask("import", 1, " dir/f"),
        Some(CompletionContext::FilePath {
            prefix: " dir/f".to_string(),
            kind: FileArgKind::TexSource,
        })
    );
    assert_eq!(ask("import", 0, "dir"), None);
    assert_eq!(
        ask("fcolorbox", 1, "  re"),
        Some(CompletionContext::ColorName {
            prefix: "re".to_string()
        })
    );
    assert_eq!(ask("cite", 1, "x"), None);
    assert_eq!(ask("unknown", 0, "x"), None);
}

#[test]
fn extensions_follow_the_kind_of_file() {
    assert_eq!(
        FileArgKind::Graphics.extensions(),
        ["pdf", "png", "jpg", "jpeg", "eps", "ps", "gif", "svg", "tif", "tiff", "bmp"]
    );
    assert_eq!(FileArgKind::TexSource.extensions(), ["tex"]);
    assert_eq!(FileArgKind::Bib.extensions(), ["bib"]);
    assert_eq!(FileArgKind::Package.extensions(), ["sty", "dtx"]);
    assert_eq!(FileArgKind::Class.extensions(), ["cls", "dtx"]);
}

#[test]
fn kinds_of_candidates_are_numbered_in_order() {
    let codes: Vec<u16> = [
        CandidateKind::Command,
        CandidateKind::Environment,
        CandidateKind::Label,
        CandidateKind::Package,
        CandidateKind::Color,
        CandidateKind::ColorModel,
        CandidateKind::TikzLibrary,
        CandidateKind::ArgumentEnum,
    ]
    .iter()
    .map(|kind| kind.code())
    .collect();
    assert_eq!(codes, vec![0, 1, 2, 3, 4, 5, 6, 7]);
}

#[test]
fn every_offered_command_resolves() {
    let bundle = bundle();
    let (sigs, model) = scan("\\newcommand{\\own}{x}");
    let context = CompletionContext::CommandName {
        prefix: String::new(),
    };
    let found = candidates(&context, &sigs, &model, &bundle);
    let lookup = Signatures::new(&sigs, &bundle);
    let labels: Vec<&str> = found.iter().map(|c| c.label.as_str()).collect();
    assert!(labels.iter().all(|label| lookup.command(label).is_some()));
    assert_eq!(
        labels,
        vec!["SI", "label", "own", "section", "sisetup", "subsection", "subsubsection"]
    );
    assert!(found.iter().all(|c| c.kind == CandidateKind::Command));
}

#[test]
fn every_offered_environment_resolves() {
    let bundle = bundle();
    let sigs = SignatureDb::default();
    let found = environment_candidates(&sigs, "it", true, &bundle);
    let lookup = Signatures::new(&sigs, &bundle);
    let labels: Vec<&str> = found.iter().map(|c| c.label.as_str()).collect();
    assert_eq!(labels, vec!["itembox", "itemize", "itshape"]);
    assert!(labels.iter().all(|label| lookup.environment(label).is_some()));
    assert!(found.iter().all(|c| !c.snippet && c.insert_text.is_none()));
}

#[test]
fn colors_and_labels_are_sorted_without_repetition() {
    let model = SemanticModel {
        labels: names(&["b", "a", "b", "ab", ""]),
        color_defs: names(&["Roy", "red", "RoyalBlue", "éclat"]),
    };
    let found = label_candidates(&model, "");
    let labels: Vec<&str> = found.iter().map(|c| c.label.as_str()).collect();
    assert_eq!(labels, vec!["", "a", "ab", "b"]);
    assert!(found.iter().all(|c| c.kind == CandidateKind::Label));
    let found = color_name_candidates(&model, "", &bundle());
    let labels: Vec<&str> = found.iter().map(|c| c.label.as_str()).collect();
    assert_eq!(
        labels,
        vec!["Rhodamine", "Roy", "RoyalBlue", "RoyalPurple", "blue", "red", "éclat"]
    );
    assert!(found.iter().all(|c| c.kind == CandidateKind::Color));
}

#[test]
fn closed_lists_keep_their_order() {
    let list = names(&["b", "ab", "a", "b"]);
    let found = static_candidates(&list, "", CandidateKind::ColorModel);
    let labels: Vec<&str> = found.iter().map(|c| c.label.as_str()).collect();
    assert_eq!(labels, vec!["b", "ab", "a", "b"]);
    let found = static_candidates(&list, "a", CandidateKind::TikzLibrary);
    assert_eq!(
        found,
        vec![
            CompletionCandidate {
                label: "ab".to_string(),
                kind: CandidateKind::TikzLibrary,
                insert_text: None,
                snippet: false,
            },
            CompletionCandidate {
                label: "a".to_string(),
                kind: CandidateKind::TikzLibrary,
                insert_text: None,
                snippet: false,
            },
        ]
    );
    let found = package_candidates(FileArgKind::Class, "a", &bundle());
    let labels: Vec<&str> = found.iter().map(|c| c.label.as_str()).collect();
    assert_eq!(labels, vec!["article", "artikel3"]);
}

#[test]
fn paths_and_nothing_offer_nothing() {
    let (sigs, model) = scan("");
    for context in [
        CompletionContext::FilePath {
            prefix: String::new(),
            kind: FileArgKind::Bib,
        },
        CompletionContext::Nothing,
    ] {
        assert!(candidates(&context, &sigs, &model, &bundle()).is_empty());
    }
}

#[test]
fn tree_holds_the_source() {
    let src = "a😀 \\frac[o]{1}%c\n\\begin{x}é\\end{x}";
    let tree = root(src);
    let mut text = String::new();
    for i in 0..tree.len() {
        assert_eq!(tree.start(i), text.len());
        if tree.is_token(i) {
            text.push_str(tree.text(i));
            assert_eq!(tree.end(i), text.len());
        } else {
            assert_eq!(tree.text(i), "");
        }
        if let Some(p) = tree.parent(i) {
            assert!(p < i && !tree.is_token(p));
            assert!(tree.start(p) <= tree.start(i) && tree.end(i) <= tree.end(p));
        } else {
            assert_eq!(i, 0);
        }
    }
    assert_eq!(text, src);
    assert_eq!(tree.text_len(), src.len());
    assert_eq!(tree.kind(0), SyntaxKind::ROOT);
    assert_eq!(tree.code(0), ROOT);
}

#[test]
fn walk_that_is_no_tree_is_refused() {
    let word = || WalkStep::Token(WORD, "x".to_string());
    let table = kinds();
    let refused = [
        vec![],
        vec![word()],
        vec![WalkStep::Enter(ROOT)],
        vec![WalkStep::Leave],
        vec![WalkStep::Enter(ROOT), WalkStep::Leave, WalkStep::Leave],
        vec![WalkStep::Enter(ROOT), WalkStep::Leave, word()],
        vec![
            WalkStep::Enter(ROOT),
            WalkStep::Leave,
            WalkStep::Enter(ROOT),
            WalkStep::Leave,
        ],
    ];
    for steps in &refused {
        assert!(SyntaxTree::from_steps(steps, &table).is_none(), "{steps:?}");
    }
    let steps = vec![
        WalkStep::Enter(ROOT),
        word(),
        WalkStep::LeaveToken,
        WalkStep::Leave,
    ];
    let tree = SyntaxTree::from_steps(&steps, &table).unwrap();
    assert_eq!(tree.len(), 2);
    assert_eq!(tree.kind(1), SyntaxKind::OTHER);
    assert_eq!(tree.code(1), WORD);
}

#[test]
fn tokens_on_both_sides_of_an_offset() {
    let tree = root("ab cd");
    let touching = |offset: usize| {
        tree.tokens_at(offset)
            .map(|(left, right)| (tree.text(left).to_string(), tree.text(right).to_string()))
    };
    let pair = |left: &str, right: &str| Some((left.to_string(), right.to_string()));
    assert_eq!(touching(0), pair("ab", "ab"));
    assert_eq!(touching(1), pair("ab", "ab"));
    assert_eq!(touching(2), pair("ab", " "));
    assert_eq!(touching(3), pair(" ", "cd"));
    assert_eq!(touching(5), pair("cd", "cd"));
    assert_eq!(root("").tokens_at(0), None);
}

#[test]
fn empty_tokens_touch_nothing() {
    let steps = vec![
        WalkStep::Enter(ROOT),
        WalkStep::Token(WORD, "a".to_string()),
        WalkStep::LeaveToken,
        WalkStep::Token(WORD, String::new()),
        WalkStep::LeaveToken,
        WalkStep::Token(WORD, "b".to_string()),
        WalkStep::LeaveToken,
        WalkStep::Leave,
    ];
    let tree = SyntaxTree::from_steps(&steps, &kinds()).unwrap();
    assert_eq!(tree.tokens_at(1), Some((1, 3)));
}

#[test]
fn groups_are_found_and_counted() {
    let src = "\\f[o]{a}{b}";
    let tree = root(src);
    let find = |kind: SyntaxKind| -> Vec<usize> {
        (0..tree.len()).filter(|&i| tree.kind(i) == kind).collect()
    };
    let command = find(SyntaxKind::COMMAND)[0];
    let groups = find(SyntaxKind::GROUP);
    assert_eq!(groups.len(), 2);
    assert_eq!(group_index(&tree, command, groups[0]), 0);
    assert_eq!(group_index(&tree, command, groups[1]), 1);
    assert_eq!(command_name(&tree, command), Some("f".to_string()));
    assert_eq!(command_name(&tree, 0), None);
    assert_eq!(group_prefix(&tree, groups[1], src.len()), "b");
    assert_eq!(group_prefix(&tree, groups[1], at(src, "}{")), "");
    let word = find(SyntaxKind::OTHER)
        .into_iter()
        .find(|&i| tree.text(i) == "b")
        .unwrap();
    assert_eq!(enclosing_group(&tree, word), Some(groups[1]));
    assert_eq!(enclosing_group(&tree, command), None);
}

#[test]
fn typed_text_is_the_source_up_to_the_cursor() {
    for src in [
        "\\ref{aé b,c}",
        "\\ref{a\\emph[x]{é{y}}b%c\n{😀}}",
        "\\ref{}",
        "\\ref{\\begin{e}z\\end{e}}",
    ] {
        let tree = root(src);
        let group = (0..tree.len())
            .find(|&i| tree.kind(i) == SyntaxKind::GROUP)
            .unwrap();
        let open = at(src, "{");
        for (rel, _) in src[open..].char_indices() {
            let offset = open + rel;
            assert_eq!(
                group_prefix(&tree, group, offset),
                src[open..offset],
                "{src:?}"
            );
        }
        assert_eq!(
            group_prefix(&tree, group, src.len()),
            src[open..src.len() - 1]
        );
        assert_eq!(tree.subtree_end(group), tree.len());
        assert_eq!(tree.subtree_end(group + 1), group + 2);
    }
}

#[test]
fn utf16_offsets_round_trip_at_boundaries() {
    let text = "a😀é€z";
    let offsets = byte_to_utf16_offsets(text).unwrap();
    assert_eq!(offsets, vec![0, 1, 0, 0, 0, 3, 0, 4, 0, 0, 5, 6]);
    for n in 0..=text.len() {
        if text.is_char_boundary(n) {
            assert_eq!(utf16_to_byte_offset(text, offsets[n]), n);
        } else {
            assert_eq!(offsets[n], 0);
        }
    }
    let all: Vec<usize> = (0..10).map(|units| utf16_to_byte_offset(text, units)).collect();
    assert_eq!(all, vec![0, 1, 1, 5, 7, 10, 11, 11, 11, 11]);
    assert_eq!(byte_to_utf16_offsets("").unwrap(), vec![0]);
    assert_eq!(utf16_to_byte_offset("", 7), 0);
}

#[test]
fn decoded_source_has_as_many_units() {
    for text in ["", "a😀z", "\u{ffff}\u{10000}\u{10ffff}\u{d7ff}\u{e000}"] {
        let units: Vec<u16> = text.encode_utf16().collect();
        let decoded = decode_source(&units).unwrap();
        assert_eq!(decoded, text);
        assert_eq!(decoded.encode_utf16().count(), units.len());
    }
    for units in [
        &[0xdc00][..],
        &[0xd800, 0x61],
        &[0xd800, 0xd800],
        &[0x61, 0xdbff],
        &[0xdc00, 0xd800],
    ] {
        assert_eq!(decode_source(units), Err(BadnessStatus::InvalidInput));
    }
}

fn snap(src: &str) -> BadnessTree {
    snapshot(src.to_string(), parse(src)).unwrap()
}

#[test]
fn snapshot_links_exactly_the_children() {
    let tree = snap("x \\f{a}{\\g{b} c}\n% end\n\\begin{e}y\\end{e}");
    let nodes = tree.nodes();
    for (id, node) in nodes.iter().enumerate() {
        let mut met = Vec::new();
        let mut child = node.first_child;
        while child != BADNESS_NONE {
            met.push(child as usize);
            child = nodes[child as usize].next_sibling;
        }
        let expected: Vec<usize> = (0..nodes.len())
            .filter(|&i| nodes[i].parent == id as u32)
            .collect();
        assert_eq!(met, expected);
        if node.parent != BADNESS_NONE {
            let parent = nodes[node.parent as usize];
            assert!(parent.start_utf16 <= node.start_utf16);
            assert!(node.end_utf16 <= parent.end_utf16);
        }
    }
    assert_eq!(nodes[0].parent, BADNESS_NONE);
    assert_eq!(nodes[0].next_sibling, BADNESS_NONE);
    assert_eq!(nodes.len(), tree.tree().len());
}

#[test]
fn snapshot_flags_tokens_and_trivia() {
    let tree = snap("é %c\n{");
    let flags: Vec<(u16, u16)> = tree.nodes().iter().map(|n| (n.kind, n.flags)).collect();
    assert_eq!(
        flags,
        vec![
            (ROOT, 0),
            (WORD, BADNESS_NODE_TOKEN),
            (WHITESPACE, BADNESS_NODE_TOKEN | BADNESS_NODE_TRIVIA),
            (COMMENT, BADNESS_NODE_TOKEN | BADNESS_NODE_TRIVIA),
            (NEWLINE, BADNESS_NODE_TOKEN | BADNESS_NODE_TRIVIA),
            (GROUP, 0),
            (L_BRACE, BADNESS_NODE_TOKEN),
        ]
    );
    assert_eq!(trivia_flag(SyntaxKind::DOC_MARGIN), 2);
    assert_eq!(trivia_flag(SyntaxKind::GUARD), 2);
    assert_eq!(trivia_flag(SyntaxKind::ROOT), 0);
    assert_eq!(tree.nodes()[0].end_utf16, 6);
}

#[test]
fn diagnostics_between_boundaries_are_at_zero() {
    let src = "a😀b";
    let mut parsed = parse(src);
    parsed.errors.push(ParseError {
        start: 5,
        end: 6,
        message: "é".to_string(),
    });
    parsed.errors.push(ParseError {
        start: 2,
        end: 5,
        message: String::new(),
    });
    let tree = snapshot(src.to_string(), parsed).unwrap();
    let ranges: Vec<(u32, u32)> = tree
        .diagnostics()
        .iter()
        .map(|d| (d.start_utf16, d.end_utf16))
        .collect();
    assert_eq!(ranges, vec![(3, 4), (0, 3)]);
    assert_eq!(tree.diagnostics()[0].message_len(), 2);
}

#[test]
fn parse_that_loses_text_is_noticed() {
    let src = "a\\b{c}";
    assert_eq!(parse(src).tree.full_text(), src);
    assert!(is_lossless(&parse(src), src));
    assert!(!is_lossless(&parse(src), "a"));
    let with_error = |start: usize, end: usize| {
        let mut parsed = parse(src);
        parsed.errors.push(ParseError {
            start,
            end,
            message: String::new(),
        });
        is_lossless(&parsed, src)
    };
    assert!(with_error(0, src.len()));
    assert!(!with_error(0, src.len() + 1));
    assert!(!with_error(src.len() + 1, 0));
}

#[test]
fn ranges_cut_the_text_out_of_the_source() {
    let src = "x😀 \\f[é]{\\g{b}😀c}%€\n";
    let units: Vec<u16> = src.encode_utf16().collect();
    let tree = snap(src);
    let mut last_end = 0;
    for (i, node) in tree.nodes().iter().enumerate() {
        let part = &units[node.start_utf16 as usize..node.end_utf16 as usize];
        let (start, end) = (tree.tree().start(i), tree.tree().end(i));
        assert_eq!(String::from_utf16(part).unwrap(), src[start..end]);
        if tree.tree().is_token(i) {
            assert_eq!(tree.tree().text(i), &src[start..end]);
            assert_eq!(node.start_utf16, last_end);
            last_end = node.end_utf16;
        }
    }
    assert_eq!(last_end as usize, units.len());
}

#[test]
fn completion_clamps_to_the_end_of_the_source() {
    let source = "é\\sub";
    let tree = snap(source);
    let (sigs, model) = scan(source);
    let (keys, bundle) = (keys(), bundle());
    let labels = |offset: u32| -> Vec<String> {
        tree.complete(offset, &sigs, &model, &keys, &bundle)
            .candidates()
            .iter()
            .map(|c| c.label.clone())
            .collect()
    };
    assert_eq!(labels(99), names(&["subsection", "subsubsection"]));
    assert_eq!(labels(5), labels(99));
    assert!(labels(0).is_empty());
    assert_eq!(labels(2).len(), builtin(&bundle).command_names().len() + 2);
}

#[test]
fn records_follow_their_candidates() {
    let completion = completion_snapshot(vec![
        CompletionCandidate {
            label: "é".to_string(),
            kind: CandidateKind::Environment,
            insert_text: Some("ab€".to_string()),
            snippet: true,
        },
        CompletionCandidate {
            label: String::new(),
            kind: CandidateKind::ArgumentEnum,
            insert_text: None,
            snippet: false,
        },
    ]);
    let first = completion.records()[0];
    assert_eq!((first.label_len, first.kind), (2, 1));
    assert_eq!((first.has_insert_text, first.insert_text_len), (true, 5));
    assert!(first.snippet);
    let second = completion.records()[1];
    assert_eq!((second.label_len, second.kind), (0, 7));
    assert!(!second.has_insert_text && !second.snippet);
    assert_eq!(completion.candidates().len(), 2);
}
