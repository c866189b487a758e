//! The parser of a command line: it holds the declaration, lays it out as a
//! graph, and finds in that graph what the words of a command line name.

use crate::config::{
    find_name, has_name, names_differ, Arg, ArgType, ArgTypeView, ArgView, ConfigError, Flag,
    SubCommand, SubCommandConfig, SubCommandView, texts_of,
};
use crate::graph::{Graph, NodeIndex};
use crate::model::GraphModel;
use crate::text::{str_eq, str_starts_with};
use crate::theory::{lemma_roots_below, lemma_targets_below_contains};
use vstd::prelude::*;

verus! {

/// The payloads of `model` as plain values, over the same links.
pub open spec fn arg_views(model: GraphModel<Arg>) -> GraphModel<ArgView> {
    GraphModel {
        payloads: Seq::new(model.payloads.len(), |i: int| model.payloads[i]@),
        links: model.links,
    }
}

/// The position that an optional handle names.
pub open spec fn position(index: Option<NodeIndex>) -> Option<int> {
    match index {
        Some(index) => Some(index.0 as int),
        None => None,
    }
}

/// The payload of the node that stands for `flag`.
pub open spec fn flag_arg(flag: Flag) -> ArgView {
    ArgView { kind: ArgTypeView::Flag(flag@), found: false }
}

/// The payload of the node that stands for the subcommand that `config` declares.
pub open spec fn subcommand_arg(config: SubCommandConfig) -> ArgView {
    ArgView {
        kind: ArgTypeView::SubCommand(
            SubCommandView { name: config.name()@, aliases: texts_of(config.aliases()@) },
        ),
        found: false,
    }
}

/// `tree` with one more node, which carries `payload` and stands beneath
/// `parent` where one is given.
pub open spec fn with_child(
    tree: GraphModel<ArgView>,
    parent: Option<int>,
    payload: ArgView,
) -> GraphModel<ArgView> {
    match parent {
        Some(parent) => tree.with_node(payload).with_link(parent, tree.node_count() as int),
        None => tree.with_node(payload),
    }
}

/// `tree` with a node for each of the first `upto` of `flags`, in their
/// order, each beneath `parent` where one is given.
pub open spec fn with_flags(
    tree: GraphModel<ArgView>,
    flags: Seq<Flag>,
    upto: int,
    parent: Option<int>,
) -> GraphModel<ArgView>
    decreases upto,
{
    if upto <= 0 || upto > flags.len() {
        tree
    } else {
        with_child(with_flags(tree, flags, upto - 1, parent), parent, flag_arg(flags[upto - 1]))
    }
}

/// `tree` with what `config` declares: a node for the subcommand, beneath
/// `parent` where one is given; beneath that node one for each of its flags;
/// and then, beneath the same node, what each of its subcommands declares.
pub open spec fn with_subcommand(
    tree: GraphModel<ArgView>,
    config: SubCommandConfig,
    parent: Option<int>,
) -> GraphModel<ArgView>
    decreases config, 0nat,
{
    let index = tree.node_count() as int;
    let named = with_child(tree, parent, subcommand_arg(config));
    let flagged = with_flags(named, config.flags()@, config.flags()@.len() as int, Some(index));
    proof {
        config.lemma_subcommands_are_smaller();
    }
    with_subcommands(
        flagged,
        config.subcommands()@,
        config.subcommands()@.len() as nat,
        Some(index),
    )
}

/// `tree` with what the first `upto` of `configs` declare, in their order,
/// each beneath `parent` where one is given.
pub open spec fn with_subcommands(
    tree: GraphModel<ArgView>,
    configs: Seq<SubCommandConfig>,
    upto: nat,
    parent: Option<int>,
) -> GraphModel<ArgView>
    decreases configs, upto,
{
    if upto == 0 || upto > configs.len() {
        tree
    } else {
        with_subcommand(
            with_subcommands(tree, configs, (upto - 1) as nat, parent),
            configs[upto - 1],
            parent,
        )
    }
}

/// `word` names the subcommand that `payload` stands for, by its name or by
/// one of its aliases.
pub open spec fn names_subcommand(payload: ArgView, word: Seq<char>) -> bool {
    payload.kind matches ArgTypeView::SubCommand(subcommand) && (subcommand.name == word
        || subcommand.aliases.contains(word))
}

/// The nodes beneath `current`: its direct successors, latest edge first;
/// without a node, the roots in ascending order.
pub open spec fn children_of(tree: GraphModel<ArgView>, current: Option<int>) -> Seq<int> {
    match current {
        Some(current) => tree.successors(current),
        None => tree.roots(),
    }
}

/// The first of `children`, from position `from` on, that stands for a
/// subcommand which `word` names.
pub open spec fn first_named(
    payloads: Seq<ArgView>,
    children: Seq<int>,
    from: int,
    word: Seq<char>,
) -> Option<int>
    decreases children.len() - from,
{
    if from < 0 || from >= children.len() {
        None
    } else if names_subcommand(payloads[children[from]], word) {
        Some(children[from])
    } else {
        first_named(payloads, children, from + 1, word)
    }
}

/// The first node beneath `current` that stands for a subcommand which
/// `word` names.
pub open spec fn named_child(
    tree: GraphModel<ArgView>,
    current: Option<int>,
    word: Seq<char>,
) -> Option<int> {
    first_named(tree.payloads, children_of(tree, current), 0, word)
}

/// `tree` in which node `i` is marked as found.
pub open spec fn marked(tree: GraphModel<ArgView>, i: int) -> GraphModel<ArgView> {
    tree.with_payload(i, ArgView { kind: tree.payloads[i].kind, found: true })
}

/// The payload of the node that stands for the argument `word`, which the
/// command line holds.
pub open spec fn argument_arg(word: Seq<char>) -> ArgView {
    ArgView { kind: ArgTypeView::Argument(word), found: true }
}

/// How far the words of a command line have led: the graph, the subcommand
/// that was named last, and whether options are still looked for.
pub struct Scan {
    pub tree: GraphModel<ArgView>,
    pub current: Option<int>,
    pub options: bool,
}

/// What one word of the command line does.
///
/// `-` does nothing. `--` ends the options. While options are looked for, any
/// other word that begins with `-` is an option, and is passed over. Any
/// other word leads to the subcommand beneath the current one that it names,
/// which is marked as found; where it names none, it becomes an argument,
/// a new node beneath the current subcommand.
pub open spec fn scan_word(scan: Scan, word: Seq<char>) -> Scan {
    if word == seq!['-'] {
        scan
    } else if word == seq!['-', '-'] {
        Scan { tree: scan.tree, current: scan.current, options: false }
    } else if scan.options && word.len() > 0 && word[0] == '-' {
        scan
    } else {
        match named_child(scan.tree, scan.current, word) {
            Some(child) => Scan {
                tree: marked(scan.tree, child),
                current: Some(child),
                options: scan.options,
            },
            None => Scan {
                tree: with_child(scan.tree, scan.current, argument_arg(word)),
                current: scan.current,
                options: scan.options,
            },
        }
    }
}

/// What the first `upto` of `words` do, one after the other.
pub open spec fn scan_words(scan: Scan, words: Seq<Seq<char>>, upto: int) -> Scan
    decreases upto,
{
    if upto <= 0 || upto > words.len() {
        scan
    } else {
        scan_word(scan_words(scan, words, upto - 1), words[upto - 1])
    }
}

/// The views of a graph with one more node, beneath `parent` where one is
/// given, are the views of the graph with one more child.
proof fn lemma_views_with_child(before: GraphModel<Arg>, parent: Option<int>, data: Arg)
    ensures
        parent is None ==> arg_views(before.with_node(data)) == with_child(
            arg_views(before),
            parent,
            data@,
        ),
        parent matches Some(p) ==> arg_views(
            before.with_node(data).with_link(p, before.node_count() as int),
        ) == with_child(arg_views(before), parent, data@),
{
    match parent {
        Some(p) => {
            let grown = before.with_node(data).with_link(p, before.node_count() as int);
            let expected = with_child(arg_views(before), parent, data@);
            assert(arg_views(grown).payloads =~= expected.payloads);
            assert(arg_views(grown).links =~= expected.links);
        },
        None => {
            let grown = before.with_node(data);
            let expected = with_child(arg_views(before), parent, data@);
            assert(arg_views(grown).payloads =~= expected.payloads);
            assert(arg_views(grown).links =~= expected.links);
        },
    }
}

/// Lays out in `graph` what `current_subcmd` declares, beneath
/// `previous_index` where one is given.
fn iterate_subcommand_config<'a>(
    graph: &mut Graph<Arg<'a>>,
    current_subcmd: &SubCommandConfig<'a>,
    previous_index: Option<NodeIndex>,
)
    requires
        previous_index matches Some(parent) ==> parent.0 < old(graph)@.node_count(),
    ensures
        arg_views(final(graph)@) == with_subcommand(
            arg_views(old(graph)@),
            *current_subcmd,
            position(previous_index),
        ),
        final(graph)@.node_count() > old(graph)@.node_count(),
    decreases *current_subcmd, 0nat,
{
    let ghost start = arg_views(graph@);
    let data = Arg::new(ArgType::SubCommand(SubCommand::from(current_subcmd)));
    assert(data@ == subcommand_arg(*current_subcmd));
    proof {
        lemma_views_with_child(graph@, position(previous_index), data);
    }
    let subcmd_index = match previous_index {
        Some(index) => graph.add_node_to(index, data).unwrap(),
        None => graph.add_node(data),
    };
    let ghost named = with_child(start, position(previous_index), subcommand_arg(*current_subcmd));
    let flags = current_subcmd.flags();
    let mut i: usize = 0;
    while i < flags.len()
        invariant
            i <= flags@.len(),
            subcmd_index.0 < graph@.node_count(),
            graph@.node_count() > start.node_count(),
            arg_views(graph@) == with_flags(named, flags@, i as int, Some(subcmd_index.0 as int)),
        decreases flags@.len() - i,
    {
        let data = Arg::new(ArgType::Flag(flags[i]));
        assert(data@ == flag_arg(flags@[i as int]));
        proof {
            lemma_views_with_child(graph@, Some(subcmd_index.0 as int), data);
        }
        graph.add_node_to(subcmd_index, data).unwrap();
        i += 1;
    }
    let ghost flagged = arg_views(graph@);
    let subcommands = current_subcmd.subcommands();
    let mut k: usize = 0;
    while k < subcommands.len()
        invariant
            k <= subcommands@.len(),
            subcommands == current_subcmd.subcommands(),
            subcmd_index.0 < graph@.node_count(),
            graph@.node_count() > start.node_count(),
            arg_views(graph@) == with_subcommands(
                flagged,
                subcommands@,
                k as nat,
                Some(subcmd_index.0 as int),
            ),
        decreases subcommands@.len() - k,
    {
        proof {
            current_subcmd.lemma_subcommands_are_smaller();
        }
        iterate_subcommand_config(graph, &subcommands[k], Some(subcmd_index));
        k += 1;
    }
}

/// Tells whether `word` names the subcommand that `data` stands for.
fn names<'a>(data: &Arg<'a>, word: &str) -> (named: bool)
    ensures
        named == names_subcommand(data@, word@),
{
    match &data.kind {
        ArgType::SubCommand(subcommand) => {
            if str_eq(subcommand.name, word) {
                return true;
            }
            let ghost aliases = texts_of(subcommand.aliases@);
            let mut i: usize = 0;
            while i < subcommand.aliases.len()
                invariant
                    i <= subcommand.aliases@.len(),
                    aliases == texts_of(subcommand.aliases@),
                    data@.kind == ArgTypeView::SubCommand(subcommand@),
                    subcommand.name@ != word@,
                    forall|k: int| 0 <= k < i ==> aliases[k] != word@,
                decreases subcommand.aliases@.len() - i,
            {
                if str_eq(subcommand.aliases[i], word) {
                    assert(aliases[i as int] == word@);
                    assert(aliases.contains(word@));
                    return true;
                }
                i += 1;
            }
            false
        },
        _ => false,
    }
}

/// Finds the first node beneath `current` that stands for a subcommand
/// which `word` names.
fn find_subcommand<'a>(graph: &Graph<Arg<'a>>, current: Option<NodeIndex>, word: &str) -> (found:
    Option<NodeIndex>)
    requires
        current matches Some(index) ==> index.0 < graph@.node_count(),
    ensures
        position(found) == named_child(arg_views(graph@), position(current), word@),
        found matches Some(index) ==> index.0 < graph@.node_count(),
{
    let ghost tree = arg_views(graph@);
    let mut successors = graph.successors(current).unwrap();
    let ghost children = successors.remaining();
    assert(children == children_of(tree, position(current)));
    let ghost mut k: int = 0;
    assert(children.skip(0) =~= children);
    loop
        invariant
            0 <= k <= children.len(),
            tree == arg_views(graph@),
            graph@.well_formed(),
            children == children_of(tree, position(current)),
            successors.remaining() == children.skip(k),
            first_named(tree.payloads, children, k, word@) == first_named(
                tree.payloads,
                children,
                0,
                word@,
            ),
        decreases children.len() - k,
    {
        match successors.next() {
            None => {
                return None;
            },
            Some(index) => {
                assert(index.0 == children[k]);
                proof {
                    match current {
                        Some(parent) => {
                            assert(graph@.successors(parent.0 as int).contains(children[k]));
                            lemma_targets_below_contains(
                                graph@.links,
                                graph@.links.len() as int,
                                parent.0 as int,
                                children[k],
                            );
                        },
                        None => {
                            lemma_roots_below(graph@.links, graph@.node_count() as int);
                        },
                    }
                    assert(children.skip(k).skip(1) =~= children.skip(k + 1));
                }
                if names(&graph.nodes()[index].data, word) {
                    return Some(index);
                }
                proof {
                    k = k + 1;
                }
            },
        }
    }
}

/// Marks node `index` as found.
fn mark_found<'a>(graph: &mut Graph<Arg<'a>>, index: NodeIndex)
    requires
        index.0 < old(graph)@.node_count(),
    ensures
        arg_views(final(graph)@) == marked(arg_views(old(graph)@), index.0 as int),
        final(graph)@.node_count() == old(graph)@.node_count(),
{
    let ghost before = arg_views(graph@);
    let previous = graph.replace_data(index, Arg::new(ArgType::Over)).unwrap();
    let Arg { kind, found: _ } = previous;
    graph.replace_data(index, Arg { kind, found: true }).unwrap();
    proof {
        let expected = marked(before, index.0 as int);
        assert(arg_views(graph@).payloads =~= expected.payloads);
        assert(arg_views(graph@).links =~= expected.links);
    }
}

/// A parser of command lines.
///
/// It holds the flags of the binary and the declarations of its subcommands,
/// no two of which have the same name, a graph with a node for each of them
/// once it is built, and the subcommand that the command line has led to.
#[derive(Debug)]
pub struct Parser<'a> {
    graph: Graph<Arg<'a>>,
    binary_flags: Vec<Flag<'a>>,
    subcommands: Vec<SubCommandConfig<'a>>,
    current_subcmd: Option<NodeIndex>,
}

impl<'a> Parser<'a> {
    #[verifier::type_invariant]
    spec fn inv(&self) -> bool {
        &&& names_differ(self.subcommands@)
        &&& self.current_subcmd matches Some(index) ==> index.0 < self.graph@.node_count()
    }

    /// The graph of what was declared and found.
    pub closed spec fn spec_graph(&self) -> &Graph<Arg<'a>> {
        &self.graph
    }

    /// The flags of the binary, in the order of their declaration.
    pub closed spec fn spec_binary_flags(&self) -> &Vec<Flag<'a>> {
        &self.binary_flags
    }

    /// The subcommands of the binary, in the order of their declaration.
    pub closed spec fn spec_subcommands(&self) -> &Vec<SubCommandConfig<'a>> {
        &self.subcommands
    }

    /// The subcommand that the command line has led to, if any.
    pub closed spec fn spec_current_subcmd(&self) -> Option<NodeIndex> {
        self.current_subcmd
    }

    /// The graph of what was declared and found.
    #[verifier::when_used_as_spec(spec_graph)]
    pub fn graph(&self) -> (graph: &Graph<Arg<'a>>)
        ensures
            graph == self.spec_graph(),
    {
        &self.graph
    }

    /// The flags of the binary, in the order of their declaration.
    #[verifier::when_used_as_spec(spec_binary_flags)]
    pub fn binary_flags(&self) -> (flags: &Vec<Flag<'a>>)
        ensures
            flags == self.spec_binary_flags(),
    {
        &self.binary_flags
    }

    /// The subcommands of the binary, in the order of their declaration. No
    /// two of them have the same name.
    #[verifier::when_used_as_spec(spec_subcommands)]
    pub fn subcommands(&self) -> (subcommands: &Vec<SubCommandConfig<'a>>)
        ensures
            subcommands == self.spec_subcommands(),
            names_differ(subcommands@),
    {
        proof {
            use_type_invariant(self);
        }
        &self.subcommands
    }

    /// The subcommand that the command line has led to, if any: a node of
    /// the graph.
    #[verifier::when_used_as_spec(spec_current_subcmd)]
    pub fn current_subcmd(&self) -> (current: Option<NodeIndex>)
        ensures
            current == self.spec_current_subcmd(),
            current matches Some(index) ==> index.0 < self.graph()@.node_count(),
    {
        proof {
            use_type_invariant(self);
        }
        self.current_subcmd
    }

    /// A parser without flags and subcommands, over an empty graph.
    pub fn new() -> (parser: Self)
        ensures
            parser.graph()@ == GraphModel::<Arg<'a>>::empty(),
            parser.binary_flags()@ == Seq::<Flag<'a>>::empty(),
            parser.subcommands()@ == Seq::<SubCommandConfig<'a>>::empty(),
            parser.current_subcmd() is None,
    {
        let graph = Graph::<Arg>::new();
        Parser { graph, binary_flags: Vec::new(), subcommands: Vec::new(), current_subcmd: None }
    }

    /// This parser is `before` with one more flag of the binary, `given`.
    pub open spec fn gained_flag(&self, before: &Self, given: Flag<'a>) -> bool {
        &&& self.binary_flags()@ == before.binary_flags()@.push(given)
        &&& self.graph() == before.graph()
        &&& self.subcommands() == before.subcommands()
        &&& self.current_subcmd() == before.current_subcmd()
    }

    /// Declares `given` as a flag of the binary.
    fn push_flag(&mut self, given: Flag<'a>)
        ensures
            final(self).gained_flag(old(self), given),
    {
        proof {
            use_type_invariant(&*self);
        }
        let mut flags = Vec::new();
        std::mem::swap(&mut self.binary_flags, &mut flags);
        flags.push(given);
        self.binary_flags = flags;
    }

    /// Declares a flag of the binary.
    pub fn flag(&mut self, name: &'a str, short: char, long: &'a str, takes_arg: bool) -> (parser:
        &mut Self)
        ensures
            parser.gained_flag(old(self), (Flag { name, short, long, takes_arg })),
            *final(self) == *final(parser),
    {
        self.push_flag(Flag::new(name, short, long, takes_arg));
        self
    }

    /// Declares the flag `-h`, `--help`.
    pub fn help(&mut self) -> (parser: &mut Self)
        ensures
            parser.gained_flag(
                old(self),
                (Flag { name: "help", short: 'h', long: "help", takes_arg: false }),
            ),
            *final(self) == *final(parser),
    {
        self.push_flag(Flag::new("help", 'h', "help", false));
        self
    }

    /// Declares the flag `-V`, `--verbose`.
    pub fn verbose(&mut self) -> (parser: &mut Self)
        ensures
            parser.gained_flag(
                old(self),
                (Flag { name: "verbose", short: 'V', long: "verbose", takes_arg: false }),
            ),
            *final(self) == *final(parser),
    {
        self.push_flag(Flag::new("verbose", 'V', "verbose", false));
        self
    }

    /// Declares the flag `-v`, `--version`.
    pub fn version(&mut self) -> (parser: &mut Self)
        ensures
            parser.gained_flag(
                old(self),
                (Flag { name: "version", short: 'v', long: "version", takes_arg: false }),
            ),
            *final(self) == *final(parser),
    {
        self.push_flag(Flag::new("version", 'v', "version", false));
        self
    }

    /// Declares the flag `-L`, `--license`.
    pub fn license(&mut self) -> (parser: &mut Self)
        ensures
            parser.gained_flag(
                old(self),
                (Flag { name: "license", short: 'L', long: "license", takes_arg: false }),
            ),
            *final(self) == *final(parser),
    {
        self.push_flag(Flag::new("license", 'L', "license", false));
        self
    }

    /// Declares the flag `-d`, `--debug`.
    pub fn debug(&mut self) -> (parser: &mut Self)
        ensures
            parser.gained_flag(
                old(self),
                (Flag { name: "debug", short: 'd', long: "debug", takes_arg: false }),
            ),
            *final(self) == *final(parser),
    {
        self.push_flag(Flag::new("debug", 'd', "debug", false));
        self
    }

    /// This parser is `before` with one more subcommand of the binary.
    pub open spec fn gained_subcommand(&self, before: &Self, given: SubCommandConfig<'a>) -> bool {
        &&& self.subcommands()@ == before.subcommands()@.push(given)
        &&& self.graph() == before.graph()
        &&& self.binary_flags() == before.binary_flags()
        &&& self.current_subcmd() == before.current_subcmd()
    }

    /// Declares a subcommand of the binary, unless one of that name is
    /// declared already: then the parser stays as it was.
    pub fn subcommand(&mut self, subcommand: SubCommandConfig<'a>) -> (result: Result<
        &mut Self,
        ConfigError,
    >)
        ensures
            has_name(old(self).subcommands()@, subcommand.name()@) ==> (result matches Err(error)
                && error == ConfigError::DuplicateSubcommand && *final(self) == *old(self)),
            !has_name(old(self).subcommands()@, subcommand.name()@) ==> (result matches Ok(parser)
                && parser.gained_subcommand(old(self), subcommand)
                && *final(self) == *final(parser)),
    {
        proof {
            use_type_invariant(&*self);
        }
        if find_name(&self.subcommands, subcommand.name()) {
            return Err(ConfigError::DuplicateSubcommand);
        }
        let mut subcommands = Vec::new();
        std::mem::swap(&mut self.subcommands, &mut subcommands);
        subcommands.push(subcommand);
        self.subcommands = subcommands;
        Ok(self)
    }

    /// This parser is `before` but for its graph.
    pub open spec fn declares_as(&self, before: &Self) -> bool {
        &&& self.binary_flags() == before.binary_flags()
        &&& self.subcommands() == before.subcommands()
    }

    /// Lays out the declaration in the graph: a node for each flag of the
    /// binary, then what each subcommand declares.
    pub fn build_graph(&mut self) -> (parser: &mut Self)
        ensures
            arg_views(parser.graph()@) == old(self).built(),
            parser.declares_as(old(self)),
            parser.current_subcmd() == old(self).current_subcmd(),
            *final(self) == *final(parser),
    {
        proof {
            use_type_invariant(&*self);
        }
        let mut taken = Parser::new();
        std::mem::swap(self, &mut taken);
        let Parser { mut graph, binary_flags, subcommands, current_subcmd } = taken;
        let ghost start = arg_views(graph@);
        let mut i: usize = 0;
        while i < binary_flags.len()
            invariant
                i <= binary_flags@.len(),
                graph@.node_count() >= start.node_count(),
                arg_views(graph@) == with_flags(start, binary_flags@, i as int, None),
            decreases binary_flags@.len() - i,
        {
            let data = Arg::new(ArgType::Flag(binary_flags[i]));
            assert(data@ == flag_arg(binary_flags@[i as int]));
            proof {
                lemma_views_with_child(graph@, None, data);
            }
            graph.add_node(data);
            i += 1;
        }
        let ghost flagged = arg_views(graph@);
        let mut k: usize = 0;
        while k < subcommands.len()
            invariant
                k <= subcommands@.len(),
                graph@.node_count() >= start.node_count(),
                arg_views(graph@) == with_subcommands(flagged, subcommands@, k as nat, None),
            decreases subcommands@.len() - k,
        {
            iterate_subcommand_config(&mut graph, &subcommands[k], None);
            k += 1;
        }
        *self = Parser { graph, binary_flags, subcommands, current_subcmd };
        self
    }

    /// The graph that `build_graph` leaves.
    pub open spec fn built(&self) -> GraphModel<ArgView> {
        with_subcommands(
            with_flags(
                arg_views(self.graph()@),
                self.binary_flags()@,
                self.binary_flags()@.len() as int,
                None,
            ),
            self.subcommands()@,
            self.subcommands()@.len() as nat,
            None,
        )
    }

    /// How far the command line has led.
    pub open spec fn scan(&self, options: bool) -> Scan {
        Scan {
            tree: arg_views(self.graph()@),
            current: position(self.current_subcmd()),
            options,
        }
    }

    /// Follows `arg` to the subcommand beneath the current one that it names,
    /// by its name or by an alias, and marks that subcommand as found. Tells
    /// whether there was one; where there was none, nothing changes.
    pub fn handle_subcommand(&mut self, arg: &str) -> (handled: bool)
        ensures
            match named_child(old(self).scan(true).tree, old(self).scan(true).current, arg@) {
                Some(child) => handled && final(self).scan(true) == (Scan {
                    tree: marked(old(self).scan(true).tree, child),
                    current: Some(child),
                    options: true,
                }),
                None => !handled && final(self).graph() == old(self).graph()
                    && final(self).current_subcmd() == old(self).current_subcmd(),
            },
            final(self).declares_as(old(self)),
    {
        proof {
            use_type_invariant(&*self);
        }
        match find_subcommand(&self.graph, self.current_subcmd, arg) {
            Some(index) => {
                let mut taken = Parser::new();
                std::mem::swap(self, &mut taken);
                let Parser { mut graph, binary_flags, subcommands, current_subcmd: _ } = taken;
                mark_found(&mut graph, index);
                *self = Parser { graph, binary_flags, subcommands, current_subcmd: Some(index) };
                true
            },
            None => false,
        }
    }

    /// Adds a node for the argument `arg`, beneath the current subcommand
    /// where there is one, and marks it as found.
    fn add_argument(&mut self, arg: &'a str)
        ensures
            final(self).scan(true) == (Scan {
                tree: with_child(
                    old(self).scan(true).tree,
                    old(self).scan(true).current,
                    argument_arg(arg@),
                ),
                current: old(self).scan(true).current,
                options: true,
            }),
            final(self).declares_as(old(self)),
    {
        proof {
            use_type_invariant(&*self);
        }
        let mut taken = Parser::new();
        std::mem::swap(self, &mut taken);
        let Parser { mut graph, binary_flags, subcommands, current_subcmd } = taken;
        let ghost before = arg_views(graph@);
        let data = Arg::new(ArgType::Argument(arg));
        proof {
            lemma_views_with_child(graph@, position(current_subcmd), data);
        }
        let node_index = match current_subcmd {
            Some(index) => graph.add_node_to(index, data).unwrap(),
            None => graph.add_node(data),
        };
        mark_found(&mut graph, node_index);
        proof {
            let expected = with_child(before, position(current_subcmd), argument_arg(arg@));
            assert(arg_views(graph@).payloads =~= expected.payloads);
            assert(arg_views(graph@).links =~= expected.links);
        }
        *self = Parser { graph, binary_flags, subcommands, current_subcmd };
    }

    /// Follows the words of a command line through the graph, one after the
    /// other.
    pub fn iterate_args(&mut self, args: Vec<&'a str>)
        ensures
            final(self).scan(true).tree == scan_words(
                old(self).scan(true),
                texts_of(args@),
                args@.len() as int,
            ).tree,
            final(self).scan(true).current == scan_words(
                old(self).scan(true),
                texts_of(args@),
                args@.len() as int,
            ).current,
            final(self).declares_as(old(self)),
    {
        let ghost start = self.scan(true);
        let ghost words = texts_of(args@);
        let mut accept_opt = true;
        let mut i: usize = 0;
        while i < args.len()
            invariant
                i <= args@.len(),
                words == texts_of(args@),
                self.scan(accept_opt) == scan_words(start, words, i as int),
                self.declares_as(old(self)),
            decreases args@.len() - i,
        {
            let arg = args[i];
            let ghost before = self.scan(accept_opt);
            assert(words[i as int] == arg@);
            proof {
                reveal_strlit("-");
                reveal_strlit("--");
                assert("-"@ =~= seq!['-']);
                assert("--"@ =~= seq!['-', '-']);
                assert("-"@.is_prefix_of(arg@) <==> arg@.len() > 0 && arg@[0] == '-') by {
                    if arg@.len() > 0 {
                        assert(arg@.subrange(0, 1)[0] == arg@[0]);
                        if arg@[0] == '-' {
                            assert("-"@ =~= arg@.subrange(0, 1));
                        }
                    }
                }
            }
            if str_eq(arg, "-") {
                assert(scan_word(before, arg@) == before);
            } else if str_eq(arg, "--") {
                accept_opt = false;
                assert(scan_word(before, arg@) == self.scan(accept_opt));
            } else if accept_opt && str_starts_with(arg, "-") {
                assert(scan_word(before, arg@) == before);
            } else {
                let ghost led = named_child(before.tree, before.current, arg@);
                if !self.handle_subcommand(arg) {
                    assert(led is None);
                    self.add_argument(arg);
                } else {
                    assert(led is Some);
                }
                assert(scan_word(before, arg@) == self.scan(accept_opt));
            }
            i += 1;
        }
    }

    /// Lays out the declaration in the graph and then follows the words of
    /// a command line through it.
    pub fn tap(&mut self, args: Vec<&'a str>) -> (parser: &mut Self)
        ensures
            ({
                let start = Scan {
                    tree: old(self).built(),
                    current: position(old(self).current_subcmd()),
                    options: true,
                };
                let end = scan_words(start, texts_of(args@), args@.len() as int);
                parser.scan(true).tree == end.tree && parser.scan(true).current == end.current
            }),
            parser.declares_as(old(self)),
            *final(self) == *final(parser),
    {
        self.build_graph();
        self.iterate_args(args);
        self
    }
}

} // verus!
