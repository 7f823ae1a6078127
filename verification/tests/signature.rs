//! The signature tables and the lookup through their tiers.

use std::borrow::Cow;
use std::collections::BTreeSet;

use badness::semantic::bundle::{
    arg_enum_values, builtin, class_names, color_models, color_names, cwl, decode_table,
    inflate_table, meta, package_metadata, package_names, parse_name_list, pgf_libraries,
    tikz_libraries, ArgEnums, Bundle, ColorsData, CwlDb, DataError, PackageMeta, Signatures,
    TikzLibrariesData,
};
use badness::semantic::raw::{
    RawArg, RawArgKind, RawCommand, RawContentKind, RawDb, RawEnvironment, RawOutlineKind,
};
use badness::semantic::signature::{
    arg, command, derive_block, derive_reflow, environment, ArgKind, ArgSpec, CommandSig,
    ContentKind, EnvironmentSig, OutlineKind, SignatureDb,
};

const REQ: RawArg = RawArg::Short(RawArgKind::Req);
const OPT: RawArg = RawArg::Short(RawArgKind::Opt);
const PROSE: RawArg = RawArg::Full {
    kind: RawArgKind::Req,
    content: RawContentKind::Prose,
};

fn raw_command(args: &[RawArg]) -> RawCommand {
    RawCommand {
        args: args.to_vec(),
        sectioning: None,
        verbatim: false,
        verbatim_delimited: false,
        rule: false,
        inline: false,
    }
}

fn section(level: u8) -> RawCommand {
    RawCommand {
        sectioning: Some(level),
        ..raw_command(&[OPT, PROSE])
    }
}

fn verbatim(delimited: bool) -> RawCommand {
    RawCommand {
        verbatim: true,
        verbatim_delimited: delimited,
        ..raw_command(&[])
    }
}

fn raw_environment(args: &[RawArg]) -> RawEnvironment {
    RawEnvironment {
        args: args.to_vec(),
        verbatim_body: false,
        verbatim_arg: false,
        math: false,
        code: false,
        align: false,
        no_indent: false,
        list: false,
        block: false,
        outline: None,
    }
}

fn block(args: &[RawArg]) -> RawEnvironment {
    RawEnvironment {
        block: true,
        ..raw_environment(args)
    }
}

fn float() -> RawEnvironment {
    RawEnvironment {
        outline: Some(RawOutlineKind::Float),
        ..block(&[OPT])
    }
}

fn raw_body() -> RawEnvironment {
    RawEnvironment {
        verbatim_body: true,
        ..block(&[])
    }
}

fn math(align: bool) -> RawEnvironment {
    RawEnvironment {
        math: true,
        align,
        ..raw_environment(&[])
    }
}

fn list() -> RawEnvironment {
    RawEnvironment {
        list: true,
        ..raw_environment(&[])
    }
}

fn code() -> RawEnvironment {
    RawEnvironment {
        code: true,
        ..block(&[])
    }
}

fn curated() -> RawDb {
    let commands = vec![
        ("part", section(0)),
        ("section", section(2)),
        ("subsection", section(3)),
        ("subsubsection", section(4)),
        ("frac", raw_command(&[REQ, REQ])),
        ("includegraphics", raw_command(&[OPT, REQ])),
        ("newcommand", raw_command(&[REQ, OPT, REQ])),
        (
            "textbf",
            RawCommand {
                inline: true,
                ..raw_command(&[PROSE])
            },
        ),
        ("verb", verbatim(true)),
        ("lstinline", verbatim(true)),
        ("code", verbatim(false)),
        ("path", verbatim(false)),
        ("footnote", raw_command(&[OPT, PROSE])),
        ("label", raw_command(&[REQ])),
        ("DocInput", raw_command(&[REQ])),
        ("DescribeMacro", raw_command(&[REQ])),
        ("DescribeEnv", raw_command(&[REQ])),
        ("StopEventually", raw_command(&[REQ])),
    ];
    let environments = vec![
        (
            "tabular",
            RawEnvironment {
                align: true,
                ..raw_environment(&[OPT, REQ])
            },
        ),
        ("figure", float()),
        ("table*", float()),
        (
            "theorem",
            RawEnvironment {
                outline: Some(RawOutlineKind::Theorem),
                ..block(&[OPT])
            },
        ),
        ("center", block(&[])),
        ("verbatim", raw_body()),
        (
            "lstlisting",
            RawEnvironment {
                verbatim_body: true,
                ..raw_environment(&[OPT])
            },
        ),
        ("equation", math(false)),
        ("align", math(true)),
        ("pmatrix", math(true)),
        ("itemize", list()),
        ("enumerate", list()),
        ("description", list()),
        ("Code", raw_body()),
        ("CodeInput", raw_body()),
        ("CodeOutput", raw_body()),
        ("Sinput", raw_body()),
        ("Soutput", raw_body()),
        ("Scode", raw_body()),
        (
            "document",
            RawEnvironment {
                no_indent: true,
                ..raw_environment(&[])
            },
        ),
        ("macro", block(&[REQ])),
        ("environment", block(&[REQ])),
        ("macrocode", code()),
        ("macrocode*", code()),
    ];
    RawDb {
        commands: commands
            .into_iter()
            .map(|(name, sig)| (name.to_string(), sig))
            .collect(),
        environments: environments
            .into_iter()
            .map(|(name, sig)| (name.to_string(), sig))
            .collect(),
    }
}

fn phf_map<V>(entries: Vec<(&'static str, V)>) -> &'static phf::Map<&'static str, V> {
    let keys: Vec<&'static str> = entries.iter().map(|entry| entry.0).collect();
    let state = phf_generator::generate_hash(&keys);
    let mut slots: Vec<Option<(&'static str, V)>> = entries.into_iter().map(Some).collect();
    let ordered: Vec<(&'static str, V)> = state
        .map
        .iter()
        .map(|&index| slots[index].take().expect("each entry once"))
        .collect();
    Box::leak(Box::new(phf::Map {
        key: state.key,
        disps: Box::leak(state.disps.into_boxed_slice()),
        entries: Box::leak(ordered.into_boxed_slice()),
    }))
}

fn slots(args: &[ArgSpec]) -> &'static [ArgSpec] {
    Box::leak(args.to_vec().into_boxed_slice())
}

fn brace() -> ArgSpec {
    arg(true, ArgKind::Brace, ContentKind::Opaque)
}

fn arity(count: usize) -> CommandSig {
    command(slots(&vec![brace(); count]), None, false, false, false)
}

/// A name of four letters for each number below 456976.
fn letters(mut number: usize) -> String {
    let mut name = String::new();
    for _ in 0..4 {
        name.push((b'a' + (number % 26) as u8) as char);
        number /= 26;
    }
    name
}

fn bulk() -> CwlDb {
    let mut commands: Vec<(&'static str, CommandSig)> = vec![
        ("SI", arity(2)),
        ("section", arity(1)),
        ("siunitx", arity(1)),
    ];
    for number in 0..1100 {
        let name: &'static str = Box::leak(format!("cwl{}", letters(number)).into_boxed_str());
        commands.push((name, arity(number % 4)));
    }
    let environments = vec![(
        "tblr",
        environment(
            slots(&[brace()]),
            false,
            false,
            false,
            false,
            false,
            false,
            false,
            None,
        ),
    )];
    CwlDb::baked(phf_map(commands), phf_map(environments))
}

const ARG_ENUMS: &str = r#"{
    "pagenumbering": { "0": ["arabic", "roman", "Roman", "alph", "Alph"] },
    "pagestyle": { "0": ["empty", "plain", "headings", "myheadings"] }
}"#;

fn strings(names: &[&str]) -> Vec<String> {
    names.iter().map(|name| name.to_string()).collect()
}

fn load_bundle() -> Bundle {
    Bundle::load(
        curated(),
        bulk(),
        "# packages\namsmath\ntikz\n---\ntikzmark\n",
        "# classes\narticle\n---\nartikel1\n",
        ColorsData {
            names: strings(&["red", "RoyalBlue"]),
            models: strings(&["rgb", "HTML"]),
        },
        TikzLibrariesData {
            tikz: strings(&["calc", "arrows.meta"]),
            pgf: strings(&["plothandlers"]),
        },
        ARG_ENUMS,
        phf_map(vec![(
            "amsmath",
            meta(
                Some("AMS mathematical facilities for LaTeX"),
                Some("latex-amsmath"),
            ),
        )]),
    )
    .expect("valid tables")
}

fn bundle() -> &'static Bundle {
    Box::leak(Box::new(load_bundle()))
}

#[test]
fn bundled_json_loads() {
    let bundle = bundle();
    let db = builtin(bundle);
    assert!(db.command("section").is_some());
    assert!(db.environment("tabular").is_some());
}

#[test]
fn arg_enums_json_loads_and_resolves() {
    let bundle = bundle();
    assert_eq!(
        arg_enum_values(bundle, "pagenumbering", 0),
        Some(
            ["arabic", "roman", "Roman", "alph", "Alph"]
                .map(String::from)
                .as_slice()
        )
    );
    assert!(arg_enum_values(bundle, "pagestyle", 0).is_some());
    assert!(arg_enum_values(bundle, "pagestyle", 1).is_none());
    assert!(arg_enum_values(bundle, "definitelynotacommand", 0).is_none());
}

#[test]
fn loads_and_resolves_known_commands() {
    let db = builtin(bundle());
    assert_eq!(db.command("frac").map(|c| c.args.len()), Some(2));
    assert!(db.command("frac").unwrap().args.iter().all(|a| a.required));
}

#[test]
fn optional_then_mandatory_order_preserved() {
    let args = &builtin(bundle()).command("includegraphics").unwrap().args;
    assert_eq!(args.len(), 2);
    assert_eq!(args[0].kind, ArgKind::Bracket);
    assert!(!args[0].required);
    assert_eq!(args[1].kind, ArgKind::Brace);
    assert!(args[1].required);
}

#[test]
fn mixed_argument_order_round_trips() {
    let args = &builtin(bundle()).command("newcommand").unwrap().args;
    let kinds: Vec<_> = args.iter().map(|a| a.kind).collect();
    assert_eq!(
        kinds,
        vec![ArgKind::Brace, ArgKind::Bracket, ArgKind::Brace]
    );
}

#[test]
fn outline_categories_assigned() {
    let db = builtin(bundle());
    assert_eq!(
        db.environment("figure").unwrap().outline,
        Some(OutlineKind::Float)
    );
    assert_eq!(
        db.environment("table*").unwrap().outline,
        Some(OutlineKind::Float)
    );
    assert_eq!(
        db.environment("theorem").unwrap().outline,
        Some(OutlineKind::Theorem)
    );
    assert_eq!(db.environment("center").unwrap().outline, None);
}

#[test]
fn sectioning_levels_assigned() {
    let db = builtin(bundle());
    assert_eq!(db.command("part").unwrap().sectioning, Some(0));
    assert_eq!(db.command("section").unwrap().sectioning, Some(2));
    assert_eq!(db.command("subsubsection").unwrap().sectioning, Some(4));
    assert_eq!(db.command("section").unwrap().args.len(), 2);
    assert!(db.command("textbf").unwrap().sectioning.is_none());
}

#[test]
fn verbatim_commands_flagged() {
    let db = builtin(bundle());
    assert!(db.command("verb").unwrap().verbatim);
    assert!(db.command("lstinline").unwrap().verbatim);
    assert!(!db.command("textbf").unwrap().verbatim);
    assert!(db.command("lstinline").unwrap().verbatim_delimited);
    assert!(!db.command("code").unwrap().verbatim_delimited);
    assert!(!db.command("path").unwrap().verbatim_delimited);
}

#[test]
fn content_kind_parses_from_both_forms() {
    let db = SignatureDb::from(RawDb {
        commands: vec![
            ("short".to_string(), raw_command(&[REQ])),
            ("full".to_string(), raw_command(&[OPT, PROSE])),
        ],
        environments: vec![],
    });
    let short = &db.command("short").unwrap().args;
    assert_eq!(short[0].content, ContentKind::Opaque);
    let full = &db.command("full").unwrap().args;
    assert_eq!(full[0].kind, ArgKind::Bracket);
    assert_eq!(full[0].content, ContentKind::Opaque);
    assert_eq!(full[1].kind, ArgKind::Brace);
    assert_eq!(full[1].content, ContentKind::Prose);
}

#[test]
fn bundled_prose_args_flagged() {
    let db = builtin(bundle());
    let footnote = &db.command("footnote").unwrap().args;
    assert!(footnote.iter().any(|a| a.content == ContentKind::Prose));
    let label = &db.command("label").unwrap().args;
    assert!(label.iter().all(|a| a.content == ContentKind::Opaque));
}

#[test]
fn environment_argument_shapes() {
    let db = builtin(bundle());
    let tabular = db.environment("tabular").unwrap();
    assert_eq!(tabular.args.len(), 2);
    assert_eq!(tabular.args[0].kind, ArgKind::Bracket);
    assert_eq!(tabular.args[1].kind, ArgKind::Brace);
    assert!(db.environment("verbatim").unwrap().args.is_empty());
}

#[test]
fn environment_flags_and_derived_reflow() {
    let db = builtin(bundle());
    let lstlisting = db.environment("lstlisting").unwrap();
    assert!(lstlisting.verbatim_body);
    assert!(!lstlisting.reflow);
    let equation = db.environment("equation").unwrap();
    assert!(equation.math);
    assert!(!equation.reflow);
    assert!(!equation.align);
    let align = db.environment("align").unwrap();
    assert!(align.math);
    assert!(align.align);
    let pmatrix = db.environment("pmatrix").unwrap();
    assert!(pmatrix.math);
    assert!(pmatrix.align);
    let tabular = db.environment("tabular").unwrap();
    assert!(!tabular.verbatim_body);
    assert!(!tabular.math);
    assert!(tabular.align);
    assert!(!tabular.list);
    for name in ["itemize", "enumerate", "description"] {
        let env = db.environment(name).unwrap();
        assert!(env.list, "{name} should be a list environment");
        assert!(env.reflow);
        assert!(!env.math);
    }
    for name in [
        "Code",
        "CodeInput",
        "CodeOutput",
        "Sinput",
        "Soutput",
        "Scode",
    ] {
        let env = db.environment(name).unwrap();
        assert!(env.verbatim_body, "{name} should be a verbatim environment");
        assert!(!env.reflow);
    }
}

#[test]
fn block_flag_is_explicit_or_derived() {
    let db = builtin(bundle());
    assert!(db.environment("figure").unwrap().block);
    assert!(db.environment("center").unwrap().block);
    assert!(db.environment("verbatim").unwrap().block);
    assert!(db.environment("equation").unwrap().block);
    assert!(db.environment("itemize").unwrap().block);
    assert!(db.environment("document").unwrap().block);
    assert!(db.environment("center").unwrap().reflow);
}

#[test]
fn doc_ltxdoc_signatures() {
    let db = builtin(bundle());
    for name in ["DocInput", "DescribeMacro", "DescribeEnv", "StopEventually"] {
        let cmd = db
            .command(name)
            .unwrap_or_else(|| panic!("{name} signature"));
        assert_eq!(cmd.args.len(), 1, "{name} arity");
        assert!(cmd.args[0].required, "{name} arg is mandatory");
    }
    for name in ["macro", "environment"] {
        let env = db.environment(name).unwrap_or_else(|| panic!("{name} env"));
        assert_eq!(env.args.len(), 1, "{name} arity");
        assert!(env.block, "{name} is a block env");
        assert!(env.reflow, "{name} body reflows as prose");
        assert!(!env.code, "{name} is not a code env");
    }
    for name in ["macrocode", "macrocode*"] {
        let env = db.environment(name).unwrap_or_else(|| panic!("{name} env"));
        assert!(env.code, "{name} is code");
        assert!(!env.reflow, "{name} never reflows");
        assert!(!env.verbatim_body, "{name} body is parsed, not verbatim");
        assert!(env.block, "{name} is a block env");
    }
}

#[test]
fn code_flag_parses_and_drives_reflow() {
    let db = SignatureDb::from(RawDb {
        commands: vec![],
        environments: vec![
            ("plain".to_string(), raw_environment(&[])),
            (
                "codeish".to_string(),
                RawEnvironment {
                    code: true,
                    ..raw_environment(&[])
                },
            ),
        ],
    });
    let plain = db.environment("plain").unwrap();
    assert!(!plain.code);
    assert!(plain.reflow);
    let codeish = db.environment("codeish").unwrap();
    assert!(codeish.code);
    assert!(!codeish.reflow);
    assert!(!codeish.verbatim_body);
}

#[test]
fn unknown_names_resolve_to_none() {
    let db = builtin(bundle());
    assert!(db.command("definitelynotacommand").is_none());
    assert!(db.environment("definitelynotanenv").is_none());
}

#[test]
fn empty_document_is_valid() {
    let db = SignatureDb::from(RawDb {
        commands: vec![],
        environments: vec![],
    });
    assert!(db.command("anything").is_none());
}

#[test]
fn cwl_tier_loads_and_covers_long_tail() {
    let db = cwl(bundle());
    assert!(db.command("siunitx").is_some() || db.command("SI").is_some());
    assert!(
        db.command_names().len() > 1000,
        "the CWL subset should contribute a broad name set"
    );
}

#[test]
fn cwl_entries_carry_only_arity_no_behavior_flags() {
    let db = cwl(bundle());
    for sig in db.command_sigs() {
        assert!(sig.sectioning.is_none());
        assert!(!sig.verbatim && !sig.rule && !sig.inline);
        assert!(sig.args.iter().all(|a| a.content == ContentKind::Opaque));
    }
    for sig in db.environment_sigs() {
        assert!(!sig.verbatim_body && !sig.math && !sig.code && !sig.align);
        assert!(!sig.no_indent && !sig.list && !sig.block);
        assert!(sig.outline.is_none());
    }
}

#[test]
fn curated_builtin_wins_over_cwl_tier() {
    let empty = SignatureDb::default();
    let bundle = bundle();
    let sigs = Signatures::new(&empty, bundle);
    assert!(
        cwl(bundle).command("section").is_some(),
        "test premise: in CWL tier"
    );
    assert_eq!(sigs.command("section").unwrap().sectioning, Some(2));
}

#[test]
fn cwl_only_name_resolves_through_signatures() {
    let empty = SignatureDb::default();
    let bundle = bundle();
    let sigs = Signatures::new(&empty, bundle);
    let Some(name) = cwl(bundle)
        .command_names()
        .into_iter()
        .find(|n| builtin(bundle).command(n).is_none())
    else {
        panic!("expected at least one CWL-only command name");
    };
    let sig = sigs.command(name).expect("CWL-only name resolves");
    assert!(sig.sectioning.is_none() && !sig.inline && !sig.verbatim);
}

fn db_with_command(name: &str) -> SignatureDb {
    let mut db = SignatureDb::default();
    db.insert_command(name, CommandSig::default());
    db
}

#[test]
fn merge_from_package_records_origin() {
    let mut scope = SignatureDb::default();
    scope.merge_from_package(&db_with_command("myfoo"), "mypkg");
    assert_eq!(scope.command_origin("myfoo"), Some("mypkg"));
    assert!(scope.command("myfoo").is_some());
}

#[test]
fn plain_merge_clears_origin_on_shadow() {
    let mut scope = SignatureDb::default();
    scope.merge_from_package(&db_with_command("dup"), "mypkg");
    scope.merge_from(&db_with_command("dup"));
    assert_eq!(scope.command_origin("dup"), None);
    assert!(scope.command("dup").is_some());
}

#[test]
fn later_package_merge_overwrites_origin() {
    let mut scope = SignatureDb::default();
    scope.merge_from_package(&db_with_command("shared"), "first");
    scope.merge_from_package(&db_with_command("shared"), "second");
    assert_eq!(scope.command_origin("shared"), Some("second"));
}

#[test]
fn insert_clears_origin() {
    let mut scope = SignatureDb::default();
    scope.merge_from_package(&db_with_command("myfoo"), "mypkg");
    scope.insert_command("myfoo", CommandSig::default());
    assert_eq!(scope.command_origin("myfoo"), None);
}

#[test]
fn merge_propagates_existing_origins() {
    let mut inner = SignatureDb::default();
    inner.merge_from_package(&db_with_command("dep"), "deppkg");
    let mut scope = SignatureDb::default();
    scope.merge_from(&inner);
    assert_eq!(scope.command_origin("dep"), Some("deppkg"));
}

#[test]
fn package_metadata_resolves_stem_to_ctan_facts() {
    let bundle = bundle();
    let meta = package_metadata(bundle, "amsmath").expect("amsmath in metadata DB");
    assert_eq!(meta.desc, Some("AMS mathematical facilities for LaTeX"));
    assert_eq!(
        meta.ctan_url().as_deref(),
        Some("https://ctan.org/pkg/latex-amsmath")
    );
    assert!(package_metadata(bundle, "definitely-not-a-real-package").is_none());
}

#[test]
fn package_without_id_has_no_page() {
    let unknown: PackageMeta = meta(Some("a package"), None);
    assert_eq!(unknown.desc, Some("a package"));
    assert_eq!(unknown.ctan_url(), None);
}

#[test]
fn origins_of_environments_follow_the_same_rules() {
    let mut package = SignatureDb::default();
    package.insert_environment(
        "box",
        environment(&[], false, false, false, false, false, false, true, None),
    );
    let mut scope = SignatureDb::default();
    scope.merge_from_package(&package, "first");
    assert_eq!(scope.environment_origin("box"), Some("first"));
    scope.merge_from_package(&package, "second");
    assert_eq!(scope.environment_origin("box"), Some("second"));
    let mut outer = SignatureDb::default();
    outer.merge_from(&scope);
    assert_eq!(outer.environment_origin("box"), Some("second"));
    scope.merge_from(&package);
    assert_eq!(scope.environment_origin("box"), None);
    outer.insert_environment(
        "box",
        environment(&[], false, true, false, false, false, false, false, None),
    );
    assert_eq!(outer.environment_origin("box"), None);
    assert!(outer.environment("box").unwrap().math);
}

#[test]
fn merge_takes_the_last_definition_and_keeps_the_rest() {
    let mut first = SignatureDb::default();
    first.insert_command("both", arity(1));
    first.insert_command("only", arity(2));
    let mut second = SignatureDb::default();
    second.insert_command("both", arity(3));
    first.merge_from(&second);
    assert_eq!(first.command("both").unwrap().args.len(), 3);
    assert_eq!(first.command("only").unwrap().args.len(), 2);
    assert_eq!(first.command_names(), vec!["both", "only"]);
    let once = first.clone();
    first.merge_from(&second);
    assert_eq!(first, once);
    first.merge_from(&SignatureDb::default());
    assert_eq!(first, once);
}

#[test]
fn merges_can_be_grouped_either_way() {
    let a = db_with_command("a");
    let mut b = SignatureDb::default();
    b.merge_from_package(&db_with_command("a"), "pkg");
    let c = db_with_command("c");
    let mut left = a.clone();
    left.merge_from(&b);
    left.merge_from(&c);
    let mut inner = b.clone();
    inner.merge_from(&c);
    let mut right = a.clone();
    right.merge_from(&inner);
    assert_eq!(left, right);
    assert_eq!(left.command_origin("a"), Some("pkg"));
}

#[test]
fn package_merged_through_a_scope_is_the_package_merged() {
    let package = db_with_command("x");
    let mut scope = SignatureDb::default();
    scope.merge_from_package(&package, "pkg");
    let mut through = db_with_command("y");
    through.merge_from(&scope);
    let mut direct = db_with_command("y");
    direct.merge_from_package(&package, "pkg");
    assert_eq!(through, direct);
}

#[test]
fn document_definition_wins_over_every_tier() {
    let bundle = bundle();
    let mut user = SignatureDb::default();
    user.insert_command("section", arity(3));
    let sigs = Signatures::new(&user, bundle);
    assert_eq!(sigs.command("section").unwrap().args.len(), 3);
    assert!(sigs.command("definitelynotacommand").is_none());
    assert!(sigs.environment("tblr").is_some());
    assert!(sigs.environment("itemize").unwrap().list);
    assert!(sigs.environment("nowhere").is_none());
    let mut user = SignatureDb::default();
    user.insert_environment(
        "itemize",
        environment(&[], false, false, false, false, false, false, false, None),
    );
    assert!(!Signatures::new(&user, bundle).environment("itemize").unwrap().list);
}

#[test]
fn names_are_case_sensitive_and_sorted() {
    let mut db = SignatureDb::default();
    db.insert_environment("verbatim", EnvironmentSig::from(raw_body()));
    db.insert_environment("Verbatim", EnvironmentSig::from(raw_environment(&[])));
    assert!(db.environment("verbatim").unwrap().verbatim_body);
    assert!(!db.environment("Verbatim").unwrap().verbatim_body);
    assert_eq!(db.environment_names(), vec!["Verbatim", "verbatim"]);
}

#[test]
fn later_of_two_entries_counts() {
    let db = SignatureDb::from(RawDb {
        commands: vec![
            ("x".to_string(), raw_command(&[REQ])),
            ("x".to_string(), raw_command(&[OPT, REQ])),
        ],
        environments: vec![],
    });
    assert_eq!(db.command("x").unwrap().args.len(), 2);
    assert_eq!(db.command_names(), vec!["x"]);
}

#[test]
fn derivations_have_the_documented_values() {
    assert!(derive_reflow(false, false, false));
    assert!(!derive_reflow(true, false, false));
    assert!(!derive_reflow(false, true, false));
    assert!(!derive_reflow(false, false, true));
    assert!(!derive_block(false, false, false, false));
    assert!(derive_block(true, false, false, false));
    assert!(derive_block(false, true, false, false));
    assert!(derive_block(false, false, true, false));
    assert!(derive_block(false, false, false, true));
}

#[test]
fn both_paths_derive_alike() {
    for bits in 0..64u8 {
        let flag = |n: u8| bits & (1 << n) != 0;
        let baked = environment(
            &[],
            flag(0),
            flag(1),
            flag(2),
            false,
            flag(3),
            flag(4),
            flag(5),
            None,
        );
        let read = EnvironmentSig::from(RawEnvironment {
            verbatim_body: flag(0),
            math: flag(1),
            code: flag(2),
            no_indent: flag(3),
            list: flag(4),
            block: flag(5),
            ..raw_environment(&[])
        });
        assert_eq!(baked, read);
    }
}

#[test]
fn constructors_leave_the_curated_facets_off() {
    let sig = command(slots(&[brace()]), Some(1), true, true, true);
    assert_eq!(
        sig,
        CommandSig {
            args: Cow::Owned(vec![brace()]),
            sectioning: Some(1),
            verbatim: true,
            verbatim_delimited: false,
            rule: true,
            inline: true,
        }
    );
    let env = environment(
        &[],
        true,
        true,
        true,
        true,
        true,
        true,
        true,
        Some(OutlineKind::Float),
    );
    assert!(!env.verbatim_arg);
    assert_eq!(CommandSig::default().args.len(), 0);
    assert_eq!(ContentKind::default(), ContentKind::Opaque);
}

#[test]
fn written_slots_are_read_by_their_kind() {
    assert!(RawArgKind::Req.required());
    assert!(!RawArgKind::Opt.required());
    assert_eq!(RawArgKind::Req.kind(), ArgKind::Brace);
    assert_eq!(RawArgKind::Opt.kind(), ArgKind::Bracket);
    let keys = ArgSpec::from(RawArg::Full {
        kind: RawArgKind::Opt,
        content: RawContentKind::TokenList,
    });
    assert_eq!(keys, arg(false, ArgKind::Bracket, ContentKind::TokenList));
}

#[test]
fn bulk_names_and_signatures_are_listed_once() {
    let bundle = bundle();
    let db = cwl(bundle);
    let names = db.command_names();
    let distinct: BTreeSet<&str> = names.iter().copied().collect();
    assert_eq!(distinct.len(), names.len());
    assert_eq!(names.len(), 1103);
    assert!(names.iter().all(|name| db.command(name).is_some()));
    assert_eq!(db.command_sigs().len(), names.len());
    let total: usize = names
        .iter()
        .map(|name| db.command(name).unwrap().args.len())
        .sum();
    let listed: usize = db.command_sigs().iter().map(|sig| sig.args.len()).sum();
    assert_eq!(total, listed);
    assert_eq!(db.environment_names(), vec!["tblr"]);
    assert_eq!(db.environment_sigs().len(), 1);
    assert_eq!(db.environment("tblr").unwrap().args.len(), 1);
    assert!(db.environment("nowhere").is_none());
    assert!(db.command("nowhere").is_none());
}

#[test]
fn arity_only_tiers_are_recognised() {
    let bundle = bundle();
    assert!(cwl(bundle).is_arity_only());
    assert!(CwlDb::compact(SignatureDb::default()).is_arity_only());
    assert!(!CwlDb::compact(builtin(bundle).clone()).is_arity_only());
    let with_command = |raw: RawCommand| {
        let mut table = SignatureDb::default();
        table.insert_command("a", arity(1));
        table.insert_command("b", CommandSig::from(raw));
        CwlDb::compact(table).is_arity_only()
    };
    let plain = || raw_command(&[OPT, REQ]);
    assert!(with_command(plain()));
    assert!(!with_command(raw_command(&[OPT, PROSE])));
    assert!(!with_command(section(0)));
    assert!(!with_command(RawCommand { verbatim: true, ..plain() }));
    assert!(!with_command(RawCommand { verbatim_delimited: true, ..plain() }));
    assert!(!with_command(RawCommand { rule: true, ..plain() }));
    assert!(!with_command(RawCommand { inline: true, ..plain() }));
    let with_environment = |raw: RawEnvironment| {
        let mut table = SignatureDb::default();
        table.insert_environment("e", EnvironmentSig::from(raw));
        CwlDb::compact(table).is_arity_only()
    };
    let plain = || raw_environment(&[REQ]);
    assert!(with_environment(plain()));
    assert!(!with_environment(raw_environment(&[PROSE])));
    assert!(!with_environment(RawEnvironment { verbatim_body: true, ..plain() }));
    assert!(!with_environment(RawEnvironment { verbatim_arg: true, ..plain() }));
    assert!(!with_environment(RawEnvironment { math: true, ..plain() }));
    assert!(!with_environment(RawEnvironment { code: true, ..plain() }));
    assert!(!with_environment(RawEnvironment { align: true, ..plain() }));
    assert!(!with_environment(RawEnvironment { no_indent: true, ..plain() }));
    assert!(!with_environment(RawEnvironment { list: true, ..plain() }));
    assert!(!with_environment(RawEnvironment { block: true, ..plain() }));
    assert!(!with_environment(float()));
}

#[test]
fn bulk_only_names_resolve_to_plain_signatures() {
    let bundle = bundle();
    let empty = SignatureDb::default();
    let sigs = Signatures::new(&empty, bundle);
    for name in cwl(bundle).command_names() {
        if builtin(bundle).command(name).is_none() {
            assert!(sigs.command(name).unwrap().is_arity_only(), "{name}");
        }
    }
    assert!(sigs.environment("tblr").unwrap().is_arity_only());
    assert!(!sigs.command("section").unwrap().is_arity_only());
}

#[test]
fn compact_tier_answers_like_a_table() {
    let mut table = SignatureDb::default();
    table.insert_command("b", arity(2));
    table.insert_command("a", arity(1));
    table.insert_environment(
        "e",
        environment(&[], false, false, false, false, false, false, false, None),
    );
    let db = CwlDb::compact(table);
    assert_eq!(db.command("b").unwrap().args.len(), 2);
    assert_eq!(db.command_names(), vec!["a", "b"]);
    assert_eq!(db.environment_names(), vec!["e"]);
    let arities: Vec<usize> = db.command_sigs().iter().map(|sig| sig.args.len()).collect();
    assert_eq!(arities, vec![1, 2]);
    assert_eq!(db.environment_sigs().len(), 1);
    assert!(db.environment("f").is_none());
}

#[test]
fn compressed_table_is_inflated() {
    let text = "{ \"commands\": { \"é\": {} } }".repeat(50);
    let stream = miniz_oxide::deflate::compress_to_vec(text.as_bytes(), 6);
    assert!(stream.len() < text.len());
    assert_eq!(inflate_table(&stream), Ok(text));
    assert_eq!(inflate_table(&[]), Err(DataError::Deflate));
    assert_eq!(inflate_table(&[0xff, 0xff, 0xff]), Err(DataError::Deflate));
    let garbled = miniz_oxide::deflate::compress_to_vec(&[b'a', 0xff, 0xfe], 6);
    assert_eq!(inflate_table(&garbled), Err(DataError::Utf8));
}

#[test]
fn bytes_decode_as_utf8() {
    assert_eq!(decode_table("häß".as_bytes().to_vec()), Ok("häß".to_string()));
    assert_eq!(decode_table(vec![]), Ok(String::new()));
    assert_eq!(decode_table(vec![0xc3]), Err(DataError::Utf8));
}

#[test]
fn name_list_keeps_rank_order_and_drops_the_rest() {
    assert_eq!(
        parse_name_list("# header\nzeta\r\n\nalpha\n---\n#x\nomega"),
        vec!["zeta", "alpha", "omega"]
    );
    assert!(parse_name_list("").is_empty());
    assert!(parse_name_list("---\n#\n\r\n\n").is_empty());
    assert_eq!(parse_name_list("a\rb\n----\n"), vec!["a\rb", "----"]);
    assert_eq!(parse_name_list("last\r"), vec!["last\r"]);
    for text in ["a\n\r\nb\r\r\nc", "x\n\n#y\r\n---\r\n--- \n z", "\r", "q\n"] {
        let expected: Vec<&str> = text
            .lines()
            .filter(|line| !line.is_empty() && !line.starts_with('#') && *line != "---")
            .collect();
        assert_eq!(parse_name_list(text), expected, "{text:?}");
    }
}

#[test]
fn lists_of_the_bundle_are_handed_out() {
    let bundle = bundle();
    assert_eq!(package_names(bundle), strings(&["amsmath", "tikz", "tikzmark"]));
    assert_eq!(class_names(bundle), strings(&["article", "artikel1"]));
    assert_eq!(color_names(bundle), strings(&["red", "RoyalBlue"]));
    assert_eq!(color_models(bundle), strings(&["rgb", "HTML"]));
    assert_eq!(tikz_libraries(bundle), strings(&["calc", "arrows.meta"]));
    assert_eq!(pgf_libraries(bundle), strings(&["plothandlers"]));
}

#[test]
fn malformed_argument_values_are_refused() {
    for json in ["", "[]", "{\"a\": {\"x\": []}}", "{\"a\": {\"0\": [1]}}"] {
        assert_eq!(ArgEnums::parse(json).err(), Some(DataError::Json), "{json}");
    }
    let table = ArgEnums::parse("{\"a\": {\"10\": [\"x\"], \"2\": []}}").unwrap();
    assert_eq!(table.values("a", 10), Some(strings(&["x"]).as_slice()));
    assert_eq!(table.values("a", 2), Some(strings(&[]).as_slice()));
    assert_eq!(table.values("a", 0), None);
    assert_eq!(table.values("b", 10), None);
    let doubled = ArgEnums::new(vec![
        ("a".to_string(), vec![(0, strings(&["first"]))]),
        (
            "a".to_string(),
            vec![(0, strings(&["second"])), (0, strings(&["third"]))],
        ),
    ]);
    assert_eq!(doubled.values("a", 0), Some(strings(&["third"]).as_slice()));
}

#[test]
fn bundle_with_malformed_argument_values_is_refused() {
    let loaded = Bundle::load(
        curated(),
        bulk(),
        "",
        "",
        ColorsData {
            names: vec![],
            models: vec![],
        },
        TikzLibrariesData {
            tikz: vec![],
            pgf: vec![],
        },
        "not json",
        phf_map(vec![("x", meta(None, None))]),
    );
    assert_eq!(loaded.err(), Some(DataError::Json));
}
