//! Signatures: the argument shapes of commands and environments, with the facts
//! about them that a formatter, a linter or an outline needs.

use std::borrow::Cow;

use vstd::prelude::*;

use crate::names;
use crate::names::{Duplicate, Name, NameMap};
use crate::semantic::bundle;
pub use crate::semantic::bundle::{
    arg_enum_values, builtin, class_names, color_models, color_names, cwl, package_metadata,
    package_names, pgf_libraries, tikz_libraries, CwlDb, PackageMeta, Signatures,
};

verus! {

/// Which bracket delimits an argument.
#[derive(Debug, Clone, Copy, PartialEq, Eq, Structural)]
pub enum ArgKind {
    /// A mandatory `{...}` argument.
    Brace,
    /// An optional `[...]` argument.
    Bracket,
}

/// How a formatter treats the content of an argument.
#[derive(Debug, Clone, Copy, PartialEq, Eq, Structural)]
pub enum ContentKind {
    /// Left exactly as written.
    Opaque,
    /// Running prose, which may be reflowed to the line width.
    Prose,
    /// A comma-separated list in which white space means nothing.
    TokenList,
}

impl Default for ContentKind {
    /// An argument that says nothing of its content is left as written.
    fn default() -> (r: Self)
        ensures
            r == ContentKind::Opaque,
    {
        ContentKind::Opaque
    }
}

/// One argument slot of a signature.
#[derive(Debug, Clone, Copy, PartialEq, Eq, Structural)]
pub struct ArgSpec {
    /// Mandatory, as against optional.
    pub required: bool,
    pub kind: ArgKind,
    pub content: ContentKind,
}

/// The slots that `args` holds, borrowed or owned.
pub open spec fn slots(args: Cow<'static, [ArgSpec]>) -> Seq<ArgSpec> {
    match args {
        Cow::Borrowed(borrowed) => borrowed@,
        Cow::Owned(owned) => owned@,
    }
}

/// A copy of `args`.
fn copy_slots(args: &Cow<'static, [ArgSpec]>) -> (r: Cow<'static, [ArgSpec]>)
    ensures
        slots(r) == slots(*args),
{
    match args {
        Cow::Borrowed(borrowed) => Cow::Borrowed(*borrowed),
        Cow::Owned(owned) => {
            let copy: Vec<ArgSpec> = owned.clone();
            assert(copy@ =~= owned@);
            Cow::Owned(copy)
        },
    }
}

/// The signature of a control sequence.
#[derive(Debug, PartialEq, Eq)]
pub struct CommandSig {
    /// The argument slots in order: borrowed where the table is part of the
    /// program, owned where it was read at run time.
    pub args: Cow<'static, [ArgSpec]>,
    /// The level of a sectioning command, 0 the outermost.
    pub sectioning: Option<u8>,
    /// The last argument is raw text.
    pub verbatim: bool,
    /// The raw argument may also be delimited by any character, as after `\verb`.
    pub verbatim_delimited: bool,
    /// A horizontal rule of a table.
    pub rule: bool,
    /// The command sits in running text.
    pub inline: bool,
}

/// What a `CommandSig` says.
pub struct CommandShape {
    pub args: Seq<ArgSpec>,
    pub sectioning: Option<u8>,
    pub verbatim: bool,
    pub verbatim_delimited: bool,
    pub rule: bool,
    pub inline: bool,
}

impl View for CommandSig {
    type V = CommandShape;

    open spec fn view(&self) -> CommandShape {
        CommandShape {
            args: slots(self.args),
            sectioning: self.sectioning,
            verbatim: self.verbatim,
            verbatim_delimited: self.verbatim_delimited,
            rule: self.rule,
            inline: self.inline,
        }
    }
}

impl Clone for CommandSig {
    fn clone(&self) -> (r: Self)
        ensures
            r@ == self@,
    {
        CommandSig {
            args: copy_slots(&self.args),
            sectioning: self.sectioning,
            verbatim: self.verbatim,
            verbatim_delimited: self.verbatim_delimited,
            rule: self.rule,
            inline: self.inline,
        }
    }
}

impl Duplicate for CommandSig {
    fn duplicate(&self) -> (r: Self) {
        self.clone()
    }
}

/// The shape of a command of which nothing is known: no argument, no flag.
pub open spec fn plain_command() -> CommandShape {
    CommandShape {
        args: Seq::empty(),
        sectioning: None,
        verbatim: false,
        verbatim_delimited: false,
        rule: false,
        inline: false,
    }
}

impl Default for CommandSig {
    /// No argument, no flag.
    fn default() -> (r: Self)
        ensures
            r@ == plain_command(),
    {
        let none: Vec<ArgSpec> = Vec::new();
        assert(none@ =~= Seq::<ArgSpec>::empty());
        CommandSig {
            args: Cow::Owned(none),
            sectioning: None,
            verbatim: false,
            verbatim_delimited: false,
            rule: false,
            inline: false,
        }
    }
}

/// None of the slots says anything of its content.
pub open spec fn opaque_slots(args: Seq<ArgSpec>) -> bool {
    forall|i: int| 0 <= i < args.len() ==> (#[trigger] args[i]).content == ContentKind::Opaque
}

/// The shape says which arguments a command takes, and nothing more.
pub open spec fn arity_only_command(shape: CommandShape) -> bool {
    &&& opaque_slots(shape.args)
    &&& shape == (CommandShape { args: shape.args, ..plain_command() })
}

/// Whether none of the slots says anything of its content.
fn are_opaque(args: &Cow<'static, [ArgSpec]>) -> (r: bool)
    ensures
        r == opaque_slots(slots(*args)),
{
    let listed: &[ArgSpec] = match args {
        Cow::Borrowed(borrowed) => *borrowed,
        Cow::Owned(owned) => owned.as_slice(),
    };
    for i in 0..listed.len()
        invariant
            listed@ == slots(*args),
            forall|k: int| 0 <= k < i ==> (#[trigger] listed@[k]).content == ContentKind::Opaque,
    {
        if listed[i].content != ContentKind::Opaque {
            return false;
        }
    }
    true
}

impl CommandSig {
    /// Whether the signature says which arguments the command takes, and nothing more.
    pub fn is_arity_only(&self) -> (r: bool)
        ensures
            r == arity_only_command(self@),
    {
        are_opaque(&self.args) && self.sectioning.is_none() && !self.verbatim
            && !self.verbatim_delimited && !self.rule && !self.inline
    }
}

/// How an environment appears in the outline of a document.
#[derive(Debug, Clone, Copy, PartialEq, Eq, Structural)]
pub enum OutlineKind {
    /// `figure`, `table`, and their starred forms.
    Float,
    /// `theorem`, `lemma`, `proof` and the like.
    Theorem,
}

/// The signature of an environment.
#[derive(Debug, PartialEq, Eq)]
pub struct EnvironmentSig {
    /// The argument slots that follow `\begin{name}`.
    pub args: Cow<'static, [ArgSpec]>,
    /// The body is raw text.
    pub verbatim_body: bool,
    /// The name argument may be delimited as after `\verb`.
    pub verbatim_arg: bool,
    /// The body is math.
    pub math: bool,
    /// The body is parsed code, not prose.
    pub code: bool,
    /// The `&` columns of the body are laid out as a grid.
    pub align: bool,
    /// The body is prose that may be reflowed.
    pub reflow: bool,
    /// The body is not indented.
    pub no_indent: bool,
    /// The body is a list of `\item`s.
    pub list: bool,
    /// The environment occupies its own vertical space.
    pub block: bool,
    /// The outline entry that the environment earns.
    pub outline: Option<OutlineKind>,
}

/// What an `EnvironmentSig` says.
pub struct EnvironmentShape {
    pub args: Seq<ArgSpec>,
    pub verbatim_body: bool,
    pub verbatim_arg: bool,
    pub math: bool,
    pub code: bool,
    pub align: bool,
    pub reflow: bool,
    pub no_indent: bool,
    pub list: bool,
    pub block: bool,
    pub outline: Option<OutlineKind>,
}

impl View for EnvironmentSig {
    type V = EnvironmentShape;

    open spec fn view(&self) -> EnvironmentShape {
        EnvironmentShape {
            args: slots(self.args),
            verbatim_body: self.verbatim_body,
            verbatim_arg: self.verbatim_arg,
            math: self.math,
            code: self.code,
            align: self.align,
            reflow: self.reflow,
            no_indent: self.no_indent,
            list: self.list,
            block: self.block,
            outline: self.outline,
        }
    }
}

impl Clone for EnvironmentSig {
    fn clone(&self) -> (r: Self)
        ensures
            r@ == self@,
    {
        EnvironmentSig {
            args: copy_slots(&self.args),
            verbatim_body: self.verbatim_body,
            verbatim_arg: self.verbatim_arg,
            math: self.math,
            code: self.code,
            align: self.align,
            reflow: self.reflow,
            no_indent: self.no_indent,
            list: self.list,
            block: self.block,
            outline: self.outline,
        }
    }
}

impl Duplicate for EnvironmentSig {
    fn duplicate(&self) -> (r: Self) {
        self.clone()
    }
}

/// `reflow` and `block` are what the other facts of the shape make them:
/// `block_explicit` is the part of `block` that nothing else implies.
pub open spec fn derived(shape: EnvironmentShape, block_explicit: bool) -> bool {
    &&& shape.reflow == !(shape.verbatim_body || shape.math || shape.code)
    &&& shape.block == (block_explicit || shape.math || shape.list || shape.no_indent)
}

/// The shape of an environment of which nothing is known: no argument, no flag, and a
/// body that is prose.
pub open spec fn plain_environment() -> EnvironmentShape {
    EnvironmentShape {
        args: Seq::empty(),
        verbatim_body: false,
        verbatim_arg: false,
        math: false,
        code: false,
        align: false,
        reflow: true,
        no_indent: false,
        list: false,
        block: false,
        outline: None,
    }
}

/// The shape says which arguments an environment takes, and nothing more.
pub open spec fn arity_only_environment(shape: EnvironmentShape) -> bool {
    &&& opaque_slots(shape.args)
    &&& shape == (EnvironmentShape { args: shape.args, ..plain_environment() })
}

impl EnvironmentSig {
    /// Whether the signature says which arguments the environment takes, and nothing
    /// more.
    pub fn is_arity_only(&self) -> (r: bool)
        ensures
            r == arity_only_environment(self@),
    {
        are_opaque(&self.args) && !self.verbatim_body && !self.verbatim_arg && !self.math
            && !self.code && !self.align && self.reflow && !self.no_indent && !self.list
            && !self.block && self.outline.is_none()
    }
}

/// A body is reflowable prose unless it is verbatim, math or code.
pub fn derive_reflow(verbatim_body: bool, math: bool, code: bool) -> (r: bool)
    ensures
        r == !(verbatim_body || math || code),
{
    !(verbatim_body || math || code)
}

/// Math, lists and unindented containers are blocks; the explicit flag covers
/// the rest.
pub fn derive_block(block_explicit: bool, math: bool, list: bool, no_indent: bool) -> (r: bool)
    ensures
        r == (block_explicit || math || list || no_indent),
{
    block_explicit || math || list || no_indent
}

/// One argument slot.
pub fn arg(required: bool, kind: ArgKind, content: ContentKind) -> (r: ArgSpec)
    ensures
        r == (ArgSpec { required, kind, content }),
{
    ArgSpec { required, kind, content }
}

/// A command signature over slots that live as long as the program.
pub fn command(
    args: &'static [ArgSpec],
    sectioning: Option<u8>,
    verbatim: bool,
    rule: bool,
    inline: bool,
) -> (r: CommandSig)
    ensures
        r@ == (CommandShape {
            args: args@,
            sectioning,
            verbatim,
            verbatim_delimited: false,
            rule,
            inline,
        }),
{
    CommandSig {
        args: Cow::Borrowed(args),
        sectioning,
        verbatim,
        verbatim_delimited: false,
        rule,
        inline,
    }
}

/// An environment signature over slots that live as long as the program.
pub fn environment(
    args: &'static [ArgSpec],
    verbatim_body: bool,
    math: bool,
    code: bool,
    align: bool,
    no_indent: bool,
    list: bool,
    block_explicit: bool,
    outline: Option<OutlineKind>,
) -> (r: EnvironmentSig)
    ensures
        r@ == (EnvironmentShape {
            args: args@,
            verbatim_body,
            verbatim_arg: false,
            math,
            code,
            align,
            reflow: !(verbatim_body || math || code),
            no_indent,
            list,
            block: block_explicit || math || list || no_indent,
            outline,
        }),
        derived(r@, block_explicit),
{
    EnvironmentSig {
        args: Cow::Borrowed(args),
        verbatim_body,
        verbatim_arg: false,
        math,
        code,
        align,
        reflow: derive_reflow(verbatim_body, math, code),
        no_indent,
        list,
        block: derive_block(block_explicit, math, list, no_indent),
        outline,
    }
}

/// Command and environment signatures by name: commands without the leading
/// backslash. Names are case-sensitive.
#[derive(Debug, PartialEq, Eq)]
pub struct SignatureDb {
    commands: NameMap<CommandSig>,
    environments: NameMap<EnvironmentSig>,
    /// The package that supplied a command's signature, where one did.
    command_origins: NameMap<Name>,
    /// The package that supplied an environment's signature, where one did.
    environment_origins: NameMap<Name>,
}

/// What a `SignatureDb` knows.
pub struct Knowledge {
    pub commands: Map<Seq<char>, CommandShape>,
    pub environments: Map<Seq<char>, EnvironmentShape>,
    pub command_origins: Map<Seq<char>, Seq<char>>,
    pub environment_origins: Map<Seq<char>, Seq<char>>,
}

impl View for SignatureDb {
    type V = Knowledge;

    closed spec fn view(&self) -> Knowledge {
        Knowledge {
            commands: self.commands@,
            environments: self.environments@,
            command_origins: self.command_origins@,
            environment_origins: self.environment_origins@,
        }
    }
}

/// Every origin belongs to a name that has a signature.
pub open spec fn origins_known<T>(
    origins: Map<Seq<char>, Seq<char>>,
    signatures: Map<Seq<char>, T>,
) -> bool {
    forall|n: Seq<char>| #[trigger] origins.contains_key(n) ==> signatures.contains_key(n)
}

/// Nothing known.
pub open spec fn no_knowledge() -> Knowledge {
    Knowledge {
        commands: Map::empty(),
        environments: Map::empty(),
        command_origins: Map::empty(),
        environment_origins: Map::empty(),
    }
}

/// The origins after a merge: those of the merged tier for each name that it
/// defines, whether it has one or not, and the earlier ones for all other names.
pub open spec fn merged_origins<T>(
    earlier: Map<Seq<char>, Seq<char>>,
    defined: Map<Seq<char>, T>,
    merged: Map<Seq<char>, Seq<char>>,
) -> Map<Seq<char>, Seq<char>> {
    Map::new(
        |n: Seq<char>|
            if defined.contains_key(n) {
                merged.contains_key(n)
            } else {
                earlier.contains_key(n)
            },
        |n: Seq<char>|
            if defined.contains_key(n) {
                merged[n]
            } else {
                earlier[n]
            },
    )
}

/// The origins after the merge of a package: `origin` for each name that the
/// package defines, and the earlier ones for all other names.
pub open spec fn package_origins<T>(
    earlier: Map<Seq<char>, Seq<char>>,
    defined: Map<Seq<char>, T>,
    origin: Seq<char>,
) -> Map<Seq<char>, Seq<char>> {
    merged_origins(earlier, defined, defined.map_values(|sig: T| origin))
}

/// What is known after the merge of `other` into `db`.
pub open spec fn merged(db: Knowledge, other: Knowledge) -> Knowledge {
    Knowledge {
        commands: db.commands.union_prefer_right(other.commands),
        environments: db.environments.union_prefer_right(other.environments),
        command_origins: merged_origins(db.command_origins, other.commands, other.command_origins),
        environment_origins: merged_origins(
            db.environment_origins,
            other.environments,
            other.environment_origins,
        ),
    }
}

/// What is known after the merge of the package `origin`, which defines `other`,
/// into `db`.
pub open spec fn merged_package(db: Knowledge, other: Knowledge, origin: Seq<char>) -> Knowledge {
    Knowledge {
        commands: db.commands.union_prefer_right(other.commands),
        environments: db.environments.union_prefer_right(other.environments),
        command_origins: package_origins(db.command_origins, other.commands, origin),
        environment_origins: package_origins(db.environment_origins, other.environments, origin),
    }
}

/// Merges the signatures `other` and their origins into `sigs` and `origins`.
fn merge_tier<T: Duplicate>(
    sigs: &mut NameMap<T>,
    origins: &mut NameMap<Name>,
    other: &NameMap<T>,
    other_origins: &NameMap<Name>,
)
    ensures
        final(sigs)@ == old(sigs)@.union_prefer_right(other@),
        final(origins)@ == merged_origins(old(origins)@, other@, other_origins@),
{
    let ghost sigs0 = sigs@;
    let ghost origins0 = origins@;
    let count: usize = other.len();
    for i in 0..count
        invariant
            count == other.names().len(),
            forall|n: Seq<char>|
                #[trigger] sigs@.contains_key(n) <==> sigs0.contains_key(n)
                    || other.names().take(i as int).contains(n),
            forall|n: Seq<char>| #[trigger]
                sigs@.contains_key(n) ==> sigs@[n] == (if other.names().take(i as int).contains(n) {
                    other@[n]
                } else {
                    sigs0[n]
                }),
            forall|n: Seq<char>|
                #[trigger] origins@.contains_key(n) <==> (if other.names().take(i as int).contains(n) {
                    other_origins@.contains_key(n)
                } else {
                    origins0.contains_key(n)
                }),
            forall|n: Seq<char>| #[trigger]
                origins@.contains_key(n) ==> origins@[n] == (if other.names().take(i as int).contains(n) {
                    other_origins@[n]
                } else {
                    origins0[n]
                }),
    {
        let (name, sig) = other.entry_at(i);
        proof {
            names::lemma_take_contains(other.names(), i as int);
        }
        match other_origins.get(name) {
            Some(origin) => {
                origins.insert(name, origin.clone());
            },
            None => {
                origins.remove(name);
            },
        }
        sigs.insert(name, sig.duplicate());
    }
    proof {
        other.lemma_all_names();
        assert(other.names().take(count as int) =~= other.names());
        assert(sigs@ =~= sigs0.union_prefer_right(other@));
        assert(origins@ =~= merged_origins(origins0, other@, other_origins@));
    }
}

/// Merges the signatures `other` of the package `origin` into `sigs` and
/// `origins`.
fn merge_package_tier<T: Duplicate>(
    sigs: &mut NameMap<T>,
    origins: &mut NameMap<Name>,
    other: &NameMap<T>,
    origin: &str,
)
    ensures
        final(sigs)@ == old(sigs)@.union_prefer_right(other@),
        final(origins)@ == package_origins(old(origins)@, other@, origin@),
{
    let ghost sigs0 = sigs@;
    let ghost origins0 = origins@;
    let count: usize = other.len();
    for i in 0..count
        invariant
            count == other.names().len(),
            forall|n: Seq<char>|
                #[trigger] sigs@.contains_key(n) <==> sigs0.contains_key(n)
                    || other.names().take(i as int).contains(n),
            forall|n: Seq<char>| #[trigger]
                sigs@.contains_key(n) ==> sigs@[n] == (if other.names().take(i as int).contains(n) {
                    other@[n]
                } else {
                    sigs0[n]
                }),
            forall|n: Seq<char>|
                #[trigger] origins@.contains_key(n) <==> origins0.contains_key(n)
                    || other.names().take(i as int).contains(n),
            forall|n: Seq<char>| #[trigger]
                origins@.contains_key(n) ==> origins@[n] == (if other.names().take(i as int).contains(n) {
                    origin@
                } else {
                    origins0[n]
                }),
    {
        let (name, sig) = other.entry_at(i);
        proof {
            names::lemma_take_contains(other.names(), i as int);
        }
        origins.insert(name, Name::new(origin));
        sigs.insert(name, sig.duplicate());
    }
    proof {
        other.lemma_all_names();
        assert(other.names().take(count as int) =~= other.names());
        assert(sigs@ =~= sigs0.union_prefer_right(other@));
        assert(origins@ =~= package_origins(origins0, other@, origin@));
    }
}

impl SignatureDb {
    #[verifier::type_invariant]
    spec fn origins_fit(self) -> bool {
        &&& origins_known(self.command_origins@, self.commands@)
        &&& origins_known(self.environment_origins@, self.environments@)
    }

    /// The signature of command `name`.
    pub fn command(&self, name: &str) -> (r: Option<&CommandSig>)
        ensures
            match r {
                Some(sig) => self@.commands.contains_key(name@) && sig@ == self@.commands[name@],
                None => !self@.commands.contains_key(name@),
            },
    {
        self.commands.get(name)
    }

    /// The signature of environment `name`.
    pub fn environment(&self, name: &str) -> (r: Option<&EnvironmentSig>)
        ensures
            match r {
                Some(sig) => self@.environments.contains_key(name@) && sig@
                    == self@.environments[name@],
                None => !self@.environments.contains_key(name@),
            },
    {
        self.environments.get(name)
    }

    /// The names of all known commands, in order.
    pub fn command_names(&self) -> (r: Vec<&str>)
        ensures
            names::lists_sorted(
                r@.map_values(|n: &str| n@),
                |n: Seq<char>| self@.commands.contains_key(n),
            ),
    {
        self.commands.all_names()
    }

    /// The names of all known environments, in order.
    pub fn environment_names(&self) -> (r: Vec<&str>)
        ensures
            names::lists_sorted(
                r@.map_values(|n: &str| n@),
                |n: Seq<char>| self@.environments.contains_key(n),
            ),
    {
        self.environments.all_names()
    }

    /// The signatures of all known commands, in the order of their names.
    pub fn command_sigs(&self) -> (r: Vec<&CommandSig>)
        ensures
            bundle::lists_values(r@.map_values(|sig: &CommandSig| sig@), self@.commands),
    {
        let r: Vec<&CommandSig> = self.commands.all_values();
        proof {
            names::lemma_sorted_once(self.commands.names());
            assert(bundle::lists_values_of(
                r@.map_values(|sig: &CommandSig| sig@),
                self@.commands,
                self.commands.names(),
            ));
        }
        r
    }

    /// The signatures of all known environments, in the order of their names.
    pub fn environment_sigs(&self) -> (r: Vec<&EnvironmentSig>)
        ensures
            bundle::lists_values(r@.map_values(|sig: &EnvironmentSig| sig@), self@.environments),
    {
        let r: Vec<&EnvironmentSig> = self.environments.all_values();
        proof {
            names::lemma_sorted_once(self.environments.names());
            assert(bundle::lists_values_of(
                r@.map_values(|sig: &EnvironmentSig| sig@),
                self@.environments,
                self.environments.names(),
            ));
        }
        r
    }

    /// The package whose merge supplied the current signature of command `name`.
    pub fn command_origin(&self, name: &str) -> (r: Option<&str>)
        ensures
            match r {
                Some(origin) => self@.command_origins.contains_key(name@) && origin@
                    == self@.command_origins[name@] && self@.commands.contains_key(name@),
                None => !self@.command_origins.contains_key(name@),
            },
    {
        proof {
            use_type_invariant(self);
        }
        match self.command_origins.get(name) {
            Some(origin) => Some(origin.as_str()),
            None => None,
        }
    }

    /// The package whose merge supplied the current signature of environment
    /// `name`.
    pub fn environment_origin(&self, name: &str) -> (r: Option<&str>)
        ensures
            match r {
                Some(origin) => self@.environment_origins.contains_key(name@) && origin@
                    == self@.environment_origins[name@] && self@.environments.contains_key(name@),
                None => !self@.environment_origins.contains_key(name@),
            },
    {
        proof {
            use_type_invariant(self);
        }
        match self.environment_origins.get(name) {
            Some(origin) => Some(origin.as_str()),
            None => None,
        }
    }

    /// Records a command signature in place of any that `name` had, together with
    /// the origin that described it.
    pub fn insert_command(&mut self, name: &str, sig: CommandSig)
        ensures
            final(self)@ == (Knowledge {
                commands: old(self)@.commands.insert(name@, sig@),
                command_origins: old(self)@.command_origins.remove(name@),
                ..old(self)@
            }),
    {
        proof {
            use_type_invariant(&*self);
        }
        let mut origins: NameMap<Name> = NameMap::new();
        std::mem::swap(&mut origins, &mut self.command_origins);
        let mut commands: NameMap<CommandSig> = NameMap::new();
        std::mem::swap(&mut commands, &mut self.commands);
        origins.remove(name);
        commands.insert(name, sig);
        self.commands = commands;
        self.command_origins = origins;
    }

    /// Records an environment signature in place of any that `name` had, together
    /// with the origin that described it.
    pub fn insert_environment(&mut self, name: &str, sig: EnvironmentSig)
        ensures
            final(self)@ == (Knowledge {
                environments: old(self)@.environments.insert(name@, sig@),
                environment_origins: old(self)@.environment_origins.remove(name@),
                ..old(self)@
            }),
    {
        proof {
            use_type_invariant(&*self);
        }
        let mut origins: NameMap<Name> = NameMap::new();
        std::mem::swap(&mut origins, &mut self.environment_origins);
        let mut environments: NameMap<EnvironmentSig> = NameMap::new();
        std::mem::swap(&mut environments, &mut self.environments);
        origins.remove(name);
        environments.insert(name, sig);
        self.environments = environments;
        self.environment_origins = origins;
    }

    /// Merges every command and environment of `other`, which wins on a clash of
    /// names. The origin of a merged name becomes that of `other`, or none.
    pub fn merge_from(&mut self, other: &SignatureDb)
        ensures
            final(self)@ == merged(old(self)@, other@),
    {
        proof {
            use_type_invariant(&*self);
            use_type_invariant(other);
        }
        let mut origins: NameMap<Name> = NameMap::new();
        std::mem::swap(&mut origins, &mut self.command_origins);
        let mut commands: NameMap<CommandSig> = NameMap::new();
        std::mem::swap(&mut commands, &mut self.commands);
        merge_tier(&mut commands, &mut origins, &other.commands, &other.command_origins);
        self.commands = commands;
        self.command_origins = origins;

        let mut origins: NameMap<Name> = NameMap::new();
        std::mem::swap(&mut origins, &mut self.environment_origins);
        let mut environments: NameMap<EnvironmentSig> = NameMap::new();
        std::mem::swap(&mut environments, &mut self.environments);
        merge_tier(&mut environments, &mut origins, &other.environments, &other.environment_origins);
        self.environments = environments;
        self.environment_origins = origins;
    }

    /// Merges every command and environment of `other`, which wins on a clash of
    /// names, and records `origin` as the package that each came from.
    pub fn merge_from_package(&mut self, other: &SignatureDb, origin: &str)
        ensures
            final(self)@ == merged_package(old(self)@, other@, origin@),
    {
        proof {
            use_type_invariant(&*self);
            use_type_invariant(other);
        }
        let mut origins: NameMap<Name> = NameMap::new();
        std::mem::swap(&mut origins, &mut self.command_origins);
        let mut commands: NameMap<CommandSig> = NameMap::new();
        std::mem::swap(&mut commands, &mut self.commands);
        merge_package_tier(&mut commands, &mut origins, &other.commands, origin);
        self.commands = commands;
        self.command_origins = origins;

        let mut origins: NameMap<Name> = NameMap::new();
        std::mem::swap(&mut origins, &mut self.environment_origins);
        let mut environments: NameMap<EnvironmentSig> = NameMap::new();
        std::mem::swap(&mut environments, &mut self.environments);
        merge_package_tier(&mut environments, &mut origins, &other.environments, origin);
        self.environments = environments;
        self.environment_origins = origins;
    }
}

impl Default for SignatureDb {
    /// Nothing known.
    fn default() -> (r: Self)
        ensures
            r@ == no_knowledge(),
    {
        SignatureDb {
            commands: NameMap::new(),
            environments: NameMap::new(),
            command_origins: NameMap::new(),
            environment_origins: NameMap::new(),
        }
    }
}

impl Clone for SignatureDb {
    fn clone(&self) -> (r: Self)
        ensures
            r@ == self@,
    {
        proof {
            use_type_invariant(self);
        }
        SignatureDb {
            commands: self.commands.duplicate(),
            environments: self.environments.duplicate(),
            command_origins: self.command_origins.duplicate(),
            environment_origins: self.environment_origins.duplicate(),
        }
    }
}

} // verus!
