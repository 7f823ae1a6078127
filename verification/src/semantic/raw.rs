//! Signature tables as they are written down: a compact form, in which `reflow` and
//! `block` are left to be derived.

use std::borrow::Cow;

use vstd::prelude::*;

use crate::semantic::signature;
use crate::semantic::signature::{
    derive_block, derive_reflow, ArgKind, ArgSpec, CommandSig, ContentKind, EnvironmentSig,
    OutlineKind, SignatureDb,
};

verus! {

/// The bracket of an argument.
#[derive(Debug, Clone, Copy, PartialEq, Eq, Structural)]
pub enum RawArgKind {
    Req,
    Opt,
}

impl RawArgKind {
    /// Whether the argument is mandatory.
    pub fn required(self) -> (r: bool)
        ensures
            r == (self == RawArgKind::Req),
    {
        matches!(self, RawArgKind::Req)
    }

    /// The bracket that delimits the argument.
    pub fn kind(self) -> (r: ArgKind)
        ensures
            r == (if self == RawArgKind::Req {
                ArgKind::Brace
            } else {
                ArgKind::Bracket
            }),
    {
        match self {
            RawArgKind::Req => ArgKind::Brace,
            RawArgKind::Opt => ArgKind::Bracket,
        }
    }
}

/// The content of an argument.
#[derive(Debug, Clone, Copy, PartialEq, Eq, Structural)]
pub enum RawContentKind {
    Opaque,
    Prose,
    TokenList,
}

impl vstd::std_specs::convert::FromSpecImpl<RawContentKind> for ContentKind {
    open spec fn obeys_from_spec() -> bool {
        true
    }

    open spec fn from_spec(raw: RawContentKind) -> Self {
        match raw {
            RawContentKind::Opaque => ContentKind::Opaque,
            RawContentKind::Prose => ContentKind::Prose,
            RawContentKind::TokenList => ContentKind::TokenList,
        }
    }
}

impl From<RawContentKind> for ContentKind {
    fn from(raw: RawContentKind) -> (r: Self) {
        match raw {
            RawContentKind::Opaque => ContentKind::Opaque,
            RawContentKind::Prose => ContentKind::Prose,
            RawContentKind::TokenList => ContentKind::TokenList,
        }
    }
}

/// One argument: its bracket alone, or its bracket and its content.
#[derive(Debug, Clone, Copy, PartialEq, Eq, Structural)]
pub enum RawArg {
    Short(RawArgKind),
    Full { kind: RawArgKind, content: RawContentKind },
}

/// The slot that `raw` describes: content that is not given is opaque.
pub open spec fn slot(raw: RawArg) -> ArgSpec {
    let (kind, content) = match raw {
        RawArg::Short(kind) => (kind, ContentKind::Opaque),
        RawArg::Full { kind, content } => (
            kind,
            match content {
                RawContentKind::Opaque => ContentKind::Opaque,
                RawContentKind::Prose => ContentKind::Prose,
                RawContentKind::TokenList => ContentKind::TokenList,
            },
        ),
    };
    ArgSpec {
        required: kind == RawArgKind::Req,
        kind: if kind == RawArgKind::Req {
            ArgKind::Brace
        } else {
            ArgKind::Bracket
        },
        content,
    }
}

impl vstd::std_specs::convert::FromSpecImpl<RawArg> for ArgSpec {
    open spec fn obeys_from_spec() -> bool {
        true
    }

    open spec fn from_spec(raw: RawArg) -> Self {
        slot(raw)
    }
}

impl From<RawArg> for ArgSpec {
    fn from(raw: RawArg) -> (r: Self) {
        match raw {
            RawArg::Short(kind) => ArgSpec {
                required: kind.required(),
                kind: kind.kind(),
                content: ContentKind::Opaque,
            },
            RawArg::Full { kind, content } => ArgSpec {
                required: kind.required(),
                kind: kind.kind(),
                content: ContentKind::from(content),
            },
        }
    }
}

/// The slots that `args` describe.
fn read_slots(args: &Vec<RawArg>) -> (r: Vec<ArgSpec>)
    ensures
        r@ == args@.map_values(|raw: RawArg| slot(raw)),
{
    let mut r: Vec<ArgSpec> = Vec::new();
    for i in 0..args.len()
        invariant
            r@ =~= args@.take(i as int).map_values(|raw: RawArg| slot(raw)),
    {
        r.push(ArgSpec::from(args[i]));
        assert(args@.take(i + 1) =~= args@.take(i as int).push(args@[i as int]));
    }
    assert(args@.take(args@.len() as int) =~= args@);
    r
}

/// A command.
#[derive(Debug, PartialEq, Eq)]
pub struct RawCommand {
    pub args: Vec<RawArg>,
    pub sectioning: Option<u8>,
    pub verbatim: bool,
    pub verbatim_delimited: bool,
    pub rule: bool,
    pub inline: bool,
}

impl View for RawCommand {
    type V = signature::CommandShape;

    /// The shape that the command describes.
    open spec fn view(&self) -> signature::CommandShape {
        signature::CommandShape {
            args: self.args@.map_values(|raw: RawArg| slot(raw)),
            sectioning: self.sectioning,
            verbatim: self.verbatim,
            verbatim_delimited: self.verbatim_delimited,
            rule: self.rule,
            inline: self.inline,
        }
    }
}

impl vstd::std_specs::convert::FromSpecImpl<RawCommand> for CommandSig {
    open spec fn obeys_from_spec() -> bool {
        false
    }

    open spec fn from_spec(raw: RawCommand) -> Self {
        arbitrary()
    }
}

impl From<RawCommand> for CommandSig {
    fn from(raw: RawCommand) -> (r: Self)
        ensures
            r@ == raw@,
    {
        CommandSig {
            args: Cow::Owned(read_slots(&raw.args)),
            sectioning: raw.sectioning,
            verbatim: raw.verbatim,
            verbatim_delimited: raw.verbatim_delimited,
            rule: raw.rule,
            inline: raw.inline,
        }
    }
}

/// The outline category of an environment.
#[derive(Debug, Clone, Copy, PartialEq, Eq, Structural)]
pub enum RawOutlineKind {
    Float,
    Theorem,
}

impl vstd::std_specs::convert::FromSpecImpl<RawOutlineKind> for OutlineKind {
    open spec fn obeys_from_spec() -> bool {
        true
    }

    open spec fn from_spec(raw: RawOutlineKind) -> Self {
        match raw {
            RawOutlineKind::Float => OutlineKind::Float,
            RawOutlineKind::Theorem => OutlineKind::Theorem,
        }
    }
}

impl From<RawOutlineKind> for OutlineKind {
    fn from(raw: RawOutlineKind) -> (r: Self) {
        match raw {
            RawOutlineKind::Float => OutlineKind::Float,
            RawOutlineKind::Theorem => OutlineKind::Theorem,
        }
    }
}

/// An environment.
#[derive(Debug, PartialEq, Eq)]
pub struct RawEnvironment {
    pub args: Vec<RawArg>,
    pub verbatim_body: bool,
    pub verbatim_arg: bool,
    pub math: bool,
    pub code: bool,
    pub align: bool,
    pub no_indent: bool,
    pub list: bool,
    pub block: bool,
    pub outline: Option<RawOutlineKind>,
}

impl View for RawEnvironment {
    type V = signature::EnvironmentShape;

    /// The shape that the environment describes.
    open spec fn view(&self) -> signature::EnvironmentShape {
        signature::EnvironmentShape {
            args: self.args@.map_values(|raw: RawArg| slot(raw)),
            verbatim_body: self.verbatim_body,
            verbatim_arg: self.verbatim_arg,
            math: self.math,
            code: self.code,
            align: self.align,
            reflow: !(self.verbatim_body || self.math || self.code),
            no_indent: self.no_indent,
            list: self.list,
            block: self.block || self.math || self.list || self.no_indent,
            outline: match self.outline {
                Some(RawOutlineKind::Float) => Some(OutlineKind::Float),
                Some(RawOutlineKind::Theorem) => Some(OutlineKind::Theorem),
                None => None,
            },
        }
    }
}

impl vstd::std_specs::convert::FromSpecImpl<RawEnvironment> for EnvironmentSig {
    open spec fn obeys_from_spec() -> bool {
        false
    }

    open spec fn from_spec(raw: RawEnvironment) -> Self {
        arbitrary()
    }
}

impl From<RawEnvironment> for EnvironmentSig {
    fn from(raw: RawEnvironment) -> (r: Self)
        ensures
            r@ == raw@,
            signature::derived(r@, raw.block),
    {
        let outline: Option<OutlineKind> = match raw.outline {
            Some(kind) => Some(OutlineKind::from(kind)),
            None => None,
        };
        EnvironmentSig {
            args: Cow::Owned(read_slots(&raw.args)),
            verbatim_body: raw.verbatim_body,
            verbatim_arg: raw.verbatim_arg,
            math: raw.math,
            code: raw.code,
            align: raw.align,
            reflow: derive_reflow(raw.verbatim_body, raw.math, raw.code),
            no_indent: raw.no_indent,
            list: raw.list,
            block: derive_block(raw.block, raw.math, raw.list, raw.no_indent),
            outline,
        }
    }
}

/// A table: named commands and named environments. Of two entries with one name the
/// later counts.
#[derive(Debug, PartialEq, Eq)]
pub struct RawDb {
    pub commands: Vec<(String, RawCommand)>,
    pub environments: Vec<(String, RawEnvironment)>,
}

/// The map that the entries describe, the later of two with one name counting.
pub open spec fn entries_map<T: View>(entries: Seq<(String, T)>) -> Map<Seq<char>, T::V>
    decreases entries.len(),
{
    if entries.len() == 0 {
        Map::empty()
    } else {
        entries_map(entries.drop_last()).insert(entries.last().0@, entries.last().1@)
    }
}

impl View for RawDb {
    type V = signature::Knowledge;

    /// What the table knows; a table as it is written down names no origin.
    open spec fn view(&self) -> signature::Knowledge {
        signature::Knowledge {
            commands: entries_map(self.commands@),
            environments: entries_map(self.environments@),
            command_origins: Map::empty(),
            environment_origins: Map::empty(),
        }
    }
}

impl vstd::std_specs::convert::FromSpecImpl<RawDb> for SignatureDb {
    open spec fn obeys_from_spec() -> bool {
        false
    }

    open spec fn from_spec(raw: RawDb) -> Self {
        arbitrary()
    }
}

impl From<RawDb> for SignatureDb {
    fn from(raw: RawDb) -> (r: Self)
        ensures
            r@ == raw@,
    {
        let RawDb { commands, environments } = raw;
        let mut db: SignatureDb = SignatureDb::default();
        for entry in it: commands.into_iter()
            invariant
                it.seq() == commands@,
                db@ == (signature::Knowledge {
                    commands: entries_map(commands@.take(it.index())),
                    ..signature::no_knowledge()
                }),
        {
            let (name, sig) = entry;
            proof {
                let k = it.index();
                assert(commands@.take(k + 1).drop_last() =~= commands@.take(k));
                assert(commands@.take(k + 1).last() == (name, sig));
            }
            db.insert_command(name.as_str(), CommandSig::from(sig));
            assert(db@.command_origins =~= Map::<Seq<char>, Seq<char>>::empty());
        }
        assert(commands@.take(commands@.len() as int) =~= commands@);
        for entry in it: environments.into_iter()
            invariant
                it.seq() == environments@,
                db@ == (signature::Knowledge {
                    commands: entries_map(commands@),
                    environments: entries_map(environments@.take(it.index())),
                    ..signature::no_knowledge()
                }),
        {
            let (name, sig) = entry;
            proof {
                let k = it.index();
                assert(environments@.take(k + 1).drop_last() =~= environments@.take(k));
                assert(environments@.take(k + 1).last() == (name, sig));
            }
            db.insert_environment(name.as_str(), EnvironmentSig::from(sig));
            assert(db@.environment_origins =~= Map::<Seq<char>, Seq<char>>::empty());
        }
        assert(environments@.take(environments@.len() as int) =~= environments@);
        db
    }
}

} // verus!
