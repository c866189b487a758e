//! The declaration of a command line: flags, subcommands and their aliases.

use crate::text::{regex_finds, regex_search, str_eq};
use vstd::prelude::*;

verus! {

/// Why a declaration was refused.
#[derive(Debug, Copy, Clone, PartialEq, Eq, Structural)]
pub enum ConfigError {
    /// The name of a subcommand is empty or holds a character that is not a
    /// word character.
    InvalidName,
    /// The pattern by which names are checked could not be compiled.
    InvalidPattern,
    /// Two subcommands of one level have the same name.
    DuplicateSubcommand,
}

impl ConfigError {
    /// The rule that was broken, in words.
    pub fn message(&self) -> (text: &'static str)
        ensures
            text@ == match *self {
                ConfigError::InvalidName => "a subcommand must be defined with a valid name"@,
                ConfigError::InvalidPattern => "the pattern that checks names does not compile"@,
                ConfigError::DuplicateSubcommand =>
                    "cannot have two subcommands with the same name at the same level"@,
            },
    {
        match self {
            ConfigError::InvalidName => "a subcommand must be defined with a valid name",
            ConfigError::InvalidPattern => "the pattern that checks names does not compile",
            ConfigError::DuplicateSubcommand => {
                "cannot have two subcommands with the same name at the same level"
            },
        }
    }
}

/// A flag, with its short and long forms.
#[derive(Debug, Clone, Copy)]
pub struct Flag<'a> {
    pub name: &'a str,
    pub short: char,
    pub long: &'a str,
    pub takes_arg: bool,
}

/// What a flag holds, as plain values.
pub struct FlagView {
    pub name: Seq<char>,
    pub short: char,
    pub long: Seq<char>,
    pub takes_arg: bool,
}

impl<'a> View for Flag<'a> {
    type V = FlagView;

    open spec fn view(&self) -> FlagView {
        FlagView {
            name: self.name@,
            short: self.short,
            long: self.long@,
            takes_arg: self.takes_arg,
        }
    }
}

impl<'a> Flag<'a> {
    pub fn new(name: &'a str, short: char, long: &'a str, takes_arg: bool) -> (flag: Self)
        ensures
            flag == (Flag { name, short, long, takes_arg }),
    {
        Flag { name, short, long, takes_arg }
    }
}

/// The characters of each of `texts`, in the same order.
pub open spec fn texts_of(texts: Seq<&str>) -> Seq<Seq<char>> {
    Seq::new(texts.len(), |i: int| texts[i]@)
}

/// A subcommand as a node of the graph knows it: its name and its aliases.
#[derive(Debug)]
pub struct SubCommand<'a> {
    pub name: &'a str,
    pub aliases: Vec<&'a str>,
}

/// What a subcommand holds, as plain values.
pub struct SubCommandView {
    pub name: Seq<char>,
    pub aliases: Seq<Seq<char>>,
}

impl<'a> View for SubCommand<'a> {
    type V = SubCommandView;

    open spec fn view(&self) -> SubCommandView {
        SubCommandView { name: self.name@, aliases: texts_of(self.aliases@) }
    }
}

impl<'a> SubCommand<'a> {
    pub fn new(name: &'a str, aliases: Vec<&'a str>) -> (subcommand: Self)
        ensures
            subcommand.name == name,
            subcommand.aliases == aliases,
    {
        SubCommand { name, aliases }
    }

    /// The name and the aliases of a declaration.
    pub fn from(config: &SubCommandConfig<'a>) -> (subcommand: Self)
        ensures
            subcommand.name == config.name(),
            subcommand.aliases@ == config.aliases()@,
    {
        let given = config.aliases();
        let mut aliases: Vec<&'a str> = Vec::new();
        let mut i: usize = 0;
        while i < given.len()
            invariant
                i <= given@.len(),
                aliases@ == given@.take(i as int),
            decreases given@.len() - i,
        {
            aliases.push(given[i]);
            assert(given@.take(i + 1) =~= given@.take(i as int).push(given@[i as int]));
            i += 1;
        }
        assert(given@.take(given@.len() as int) =~= given@);
        SubCommand { name: config.name(), aliases }
    }
}

/// What a node of the command graph stands for.
#[derive(Debug)]
pub enum ArgType<'a> {
    Flag(Flag<'a>),
    SubCommand(SubCommand<'a>),
    Argument(&'a str),
    Unknown(&'a str),
    UnknownFlag(&'a str),
    Over,
}

/// What a node of the command graph stands for, as plain values.
pub enum ArgTypeView {
    Flag(FlagView),
    SubCommand(SubCommandView),
    Argument(Seq<char>),
    Unknown(Seq<char>),
    UnknownFlag(Seq<char>),
    Over,
}

impl<'a> View for ArgType<'a> {
    type V = ArgTypeView;

    open spec fn view(&self) -> ArgTypeView {
        match *self {
            ArgType::Flag(flag) => ArgTypeView::Flag(flag@),
            ArgType::SubCommand(subcommand) => ArgTypeView::SubCommand(subcommand@),
            ArgType::Argument(word) => ArgTypeView::Argument(word@),
            ArgType::Unknown(word) => ArgTypeView::Unknown(word@),
            ArgType::UnknownFlag(word) => ArgTypeView::UnknownFlag(word@),
            ArgType::Over => ArgTypeView::Over,
        }
    }
}

/// The payload of a node of the command graph: what the node stands for, and
/// whether the command line named it.
#[derive(Debug)]
pub struct Arg<'a> {
    pub kind: ArgType<'a>,
    pub found: bool,
}

/// The payload of a node, as plain values.
pub struct ArgView {
    pub kind: ArgTypeView,
    pub found: bool,
}

impl<'a> View for Arg<'a> {
    type V = ArgView;

    open spec fn view(&self) -> ArgView {
        ArgView { kind: self.kind@, found: self.found }
    }
}

impl<'a> Arg<'a> {
    /// A payload that the command line has not named yet.
    pub fn new(arg_type: ArgType<'a>) -> (arg: Self)
        ensures
            arg.kind == arg_type,
            !arg.found,
    {
        Arg { kind: arg_type, found: false }
    }
}

/// The pattern that finds a character that is not a word character.
pub open spec fn non_word_pattern() -> Seq<char> {
    "\\W"@
}

/// A valid name is not empty and holds word characters only.
pub open spec fn is_valid_name(name: Seq<char>) -> bool {
    name.len() > 0 && !regex_finds(non_word_pattern(), name)
}

/// What becomes of a name, given what the search for a character that is not
/// a word character came to: `None` where the pattern could not be compiled,
/// else whether one was found.
pub open spec fn name_verdict(name: Seq<char>, non_word: Option<bool>) -> Result<(), ConfigError> {
    if name.len() == 0 {
        Err(ConfigError::InvalidName)
    } else {
        match non_word {
            None => Err(ConfigError::InvalidPattern),
            Some(true) => Err(ConfigError::InvalidName),
            Some(false) => Ok(()),
        }
    }
}

/// No two of `subcommands` have the same name.
pub open spec fn names_differ(subcommands: Seq<SubCommandConfig>) -> bool {
    forall|i: int, j: int|
        0 <= i < j < subcommands.len() ==> (#[trigger] subcommands[i]).name()@
            != (#[trigger] subcommands[j]).name()@
}

/// One of `subcommands` has the name `name`.
pub open spec fn has_name(subcommands: Seq<SubCommandConfig>, name: Seq<char>) -> bool {
    exists|i: int| 0 <= i < subcommands.len() && (#[trigger] subcommands[i]).name()@ == name
}

/// Tells whether one of `subcommands` has the name `name`.
pub(crate) fn find_name(subcommands: &Vec<SubCommandConfig>, name: &str) -> (found: bool)
    ensures
        found == has_name(subcommands@, name@),
{
    let mut i: usize = 0;
    while i < subcommands.len()
        invariant
            i <= subcommands@.len(),
            forall|k: int| 0 <= k < i ==> (#[trigger] subcommands@[k]).name()@ != name@,
        decreases subcommands@.len() - i,
    {
        if str_eq(subcommands[i].name(), name) {
            return true;
        }
        i += 1;
    }
    false
}

/// The declaration of a subcommand: its name and aliases, its flags, and the
/// subcommands beneath it, no two of which have the same name.
#[derive(Debug)]
pub struct SubCommandConfig<'a> {
    flags: Vec<Flag<'a>>,
    name: &'a str,
    aliases: Vec<&'a str>,
    subcommands: Vec<SubCommandConfig<'a>>,
}

impl<'a> SubCommandConfig<'a> {
    #[verifier::type_invariant]
    spec fn inv(&self) -> bool {
        names_differ(self.subcommands@)
    }

    /// The name of the subcommand.
    pub closed spec fn spec_name(&self) -> &'a str {
        self.name
    }

    /// The flags of the subcommand, in the order of their declaration.
    pub closed spec fn spec_flags(&self) -> &Vec<Flag<'a>> {
        &self.flags
    }

    /// The aliases of the subcommand, in the order of their declaration.
    pub closed spec fn spec_aliases(&self) -> &Vec<&'a str> {
        &self.aliases
    }

    /// The subcommands beneath this one, in the order of their declaration.
    pub closed spec fn spec_subcommands(&self) -> &Vec<SubCommandConfig<'a>> {
        &self.subcommands
    }

    /// The name of the subcommand.
    #[verifier::when_used_as_spec(spec_name)]
    pub fn name(&self) -> (name: &'a str)
        ensures
            name == self.spec_name(),
    {
        self.name
    }

    /// The flags of the subcommand, in the order of their declaration.
    #[verifier::when_used_as_spec(spec_flags)]
    pub fn flags(&self) -> (flags: &Vec<Flag<'a>>)
        ensures
            flags == self.spec_flags(),
    {
        &self.flags
    }

    /// The aliases of the subcommand, in the order of their declaration.
    #[verifier::when_used_as_spec(spec_aliases)]
    pub fn aliases(&self) -> (aliases: &Vec<&'a str>)
        ensures
            aliases == self.spec_aliases(),
    {
        &self.aliases
    }

    /// The subcommands beneath this one, in the order of their declaration.
    /// No two of them have the same name.
    #[verifier::when_used_as_spec(spec_subcommands)]
    pub fn subcommands(&self) -> (subcommands: &Vec<SubCommandConfig<'a>>)
        ensures
            subcommands == self.spec_subcommands(),
            names_differ(subcommands@),
    {
        proof {
            use_type_invariant(self);
        }
        &self.subcommands
    }

    /// The subcommands beneath a declaration are smaller than the declaration.
    pub proof fn lemma_subcommands_are_smaller(&self)
        ensures
            decreases_to!(*self => self.subcommands()@),
    {
        assert(decreases_to!(self.subcommands => self.subcommands@));
    }

    /// The subcommand is named `name` and has nothing else.
    pub open spec fn is_bare(&self, name: &'a str) -> bool {
        &&& self.name() == name
        &&& self.flags()@ == Seq::<Flag<'a>>::empty()
        &&& self.aliases()@ == Seq::<&'a str>::empty()
        &&& self.subcommands()@ == Seq::<SubCommandConfig<'a>>::empty()
    }

    /// The declaration of a subcommand named `name`, given what the search
    /// of the name for a character that is not a word character came to.
    pub fn with_name_checked(name: &'a str, non_word: Option<bool>) -> (result: Result<
        Self,
        ConfigError,
    >)
        ensures
            match name_verdict(name@, non_word) {
                Ok(()) => result matches Ok(config) && config.is_bare(name),
                Err(expected) => result matches Err(error) && error == expected,
            },
    {
        if name.is_empty() {
            return Err(ConfigError::InvalidName);
        }
        match non_word {
            None => Err(ConfigError::InvalidPattern),
            Some(true) => Err(ConfigError::InvalidName),
            Some(false) => Ok(
                SubCommandConfig {
                    flags: Vec::new(),
                    name,
                    subcommands: Vec::new(),
                    aliases: Vec::new(),
                },
            ),
        }
    }

    /// The declaration of a subcommand named `name`.
    ///
    /// An empty name is refused. Any other name is searched for a character
    /// that is not a word character, and refused where one is found or where
    /// the search could not be made.
    pub fn with_name(name: &'a str) -> (result: Result<Self, ConfigError>)
        ensures
            match result {
                Ok(config) => is_valid_name(name@) && config.is_bare(name),
                Err(ConfigError::InvalidName) => !is_valid_name(name@),
                Err(ConfigError::InvalidPattern) => name@.len() > 0,
                Err(ConfigError::DuplicateSubcommand) => false,
            },
    {
        let non_word = if name.is_empty() {
            None
        } else {
            match regex_search("\\W", name) {
                Ok(found) => Some(found),
                Err(_) => None,
            }
        };
        Self::with_name_checked(name, non_word)
    }

    /// The same declaration with one more alias.
    pub fn alias(self, alias: &'a str) -> (config: Self)
        ensures
            config.name() == self.name(),
            config.flags() == self.flags(),
            config.aliases()@ == self.aliases()@.push(alias),
            config.subcommands() == self.subcommands(),
    {
        proof {
            use_type_invariant(&self);
        }
        let SubCommandConfig { flags, name, mut aliases, subcommands } = self;
        aliases.push(alias);
        SubCommandConfig { flags, name, aliases, subcommands }
    }

    /// The same declaration with one more flag, `given`.
    fn with_flag(self, given: Flag<'a>) -> (config: Self)
        ensures
            config.gained_flag(self, given),
    {
        proof {
            use_type_invariant(&self);
        }
        let SubCommandConfig { mut flags, name, aliases, subcommands } = self;
        flags.push(given);
        SubCommandConfig { flags, name, aliases, subcommands }
    }

    /// This declaration is `before` with one more flag, `given`.
    pub open spec fn gained_flag(&self, before: Self, given: Flag<'a>) -> bool {
        &&& self.name() == before.name()
        &&& self.flags()@ == before.flags()@.push(given)
        &&& self.aliases() == before.aliases()
        &&& self.subcommands() == before.subcommands()
    }

    /// The same declaration with one more flag.
    pub fn flag(self, name: &'a str, short: char, long: &'a str, takes_arg: bool) -> (config: Self)
        ensures
            config.gained_flag(self, (Flag { name, short, long, takes_arg })),
    {
        self.with_flag(Flag::new(name, short, long, takes_arg))
    }

    /// The same declaration with the flag `-h`, `--help`.
    pub fn help(self) -> (config: Self)
        ensures
            config.gained_flag(self, (Flag { name: "help", short: 'h', long: "help", takes_arg: false })),
    {
        self.with_flag(Flag::new("help", 'h', "help", false))
    }

    /// The same declaration with the flag `-V`, `--verbose`.
    pub fn verbose(self) -> (config: Self)
        ensures
            config.gained_flag(
                self,
                (Flag { name: "verbose", short: 'V', long: "verbose", takes_arg: false }),
            ),
    {
        self.with_flag(Flag::new("verbose", 'V', "verbose", false))
    }

    /// The same declaration with the flag `-v`, `--version`.
    pub fn version(self) -> (config: Self)
        ensures
            config.gained_flag(
                self,
                (Flag { name: "version", short: 'v', long: "version", takes_arg: false }),
            ),
    {
        self.with_flag(Flag::new("version", 'v', "version", false))
    }

    /// The same declaration with the flag `-d`, `--debug`.
    pub fn debug(self) -> (config: Self)
        ensures
            config.gained_flag(self, (Flag { name: "debug", short: 'd', long: "debug", takes_arg: false })),
    {
        self.with_flag(Flag::new("debug", 'd', "debug", false))
    }

    /// The same declaration with one more subcommand beneath it, unless one
    /// of that name is there already.
    pub fn subcommand(self, subcommand: SubCommandConfig<'a>) -> (result: Result<Self, ConfigError>)
        ensures
            has_name(self.subcommands()@, subcommand.name()@) ==> (result matches Err(error) && error
                == ConfigError::DuplicateSubcommand),
            !has_name(self.subcommands()@, subcommand.name()@) ==> (result matches Ok(config) && {
                &&& config.name() == self.name()
                &&& config.flags() == self.flags()
                &&& config.aliases() == self.aliases()
                &&& config.subcommands()@ == self.subcommands()@.push(subcommand)
            }),
    {
        proof {
            use_type_invariant(&self);
        }
        if find_name(&self.subcommands, subcommand.name()) {
            return Err(ConfigError::DuplicateSubcommand);
        }
        let SubCommandConfig { flags, name, aliases, mut subcommands } = self;
        subcommands.push(subcommand);
        Ok(SubCommandConfig { flags, name, aliases, subcommands })
    }
}

} // verus!
