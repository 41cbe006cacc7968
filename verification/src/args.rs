//! The command line of a node.

use crate::envs::Format;
use crate::net::SocketAddr;
use crate::text::{chars, rest_is};
use crate::units::{cpu_readable, cpu_spelled, mem_readable, mem_spelled, Cpu, Mem};
use vstd::prelude::*;

verus! {

/// What the program does.
pub const DESCRIPTION: &'static str = r#"Run a constellation node.
"#;

/// How the program is started.
pub const USAGE: &'static str = r#"USAGE:
    constellation <bind> [<nodes.toml>]

OPTIONS:
    -h --help           Show this screen.
    -V --version        Show version.
    -v --verbose        Verbose output.
       --format [human|json]
                        Output format [default: human].
"#;

/// What a cluster is and how it is started.
pub const HELP: &'static str = r#"A constellation cluster consists of one or more nodes. A node is started like
this:

    constellation 10.0.0.2:9999

This binds to 10.0.0.2:9999, listening for connections from other nodes.

In order for nodes to know about each other, one node must be started with a
list of all the nodes:

    constellation 10.0.0.1:9999 nodes.toml

For more information, see the documentation at
https://github.com/alecmocatta/constellation/ or run again with --help -v
"#;

/// The same at more length.
pub const VERBOSE_HELP: &'static str = r#"A constellation cluster consists of one or more nodes. A node is started like
this:

    constellation 10.0.0.2:9999

This binds to 10.0.0.2:9999, listening for connections from other nodes.

In order for nodes to know about each other, one node must be started with a
list of all the nodes:

    constellation 10.0.0.1:9999 nodes.toml

This reads the file "nodes.toml", which should look something like this:

    [[nodes]]
    fabric_addr = "10.0.0.1:9999"
    bridge_bind = "10.0.0.1:8888"
    mem = "5 GiB"
    cpu = 1

    [[nodes]]
    fabric_addr = "10.0.0.2:9999"
    mem = "5 GiB"
    cpu = 1

This enables the nodes to see and communicate with each other.

Deploying to this cluster might then be:

    deploy 10.0.0.1:8888 ./binary

or, for a Rust crate:

    cargo deploy 10.0.0.1:8888
"#;

/// The program and its version.
pub const VERSION: &'static str = "constellation 0.1.0";

/// What is wrong with a format.
pub const BAD_FORMAT: &'static str = "Invalid format, expecting \"json\" or \"human\"\n";

/// What is wrong with a node.
pub const BAD_NODE: &'static str = "Invalid node options, expecting <addr> <addr> <mem> <cpu>, like 127.0.0.1:9999 127.0.0.1:8888 400GiB 34\n";

/// An argument, and the address that it reads as, if it does.
#[derive(Clone, Debug)]
pub struct Arg {
    pub text: String,
    pub addr: Option<SocketAddr>,
}

/// A node of a cluster: where it listens, where its bridge is bound to, if it has
/// one, its memory in bytes and its processor time in 65536ths of a core.
#[derive(Copy, Clone, PartialEq, Eq, Debug)]
pub struct Node {
    pub fabric: SocketAddr,
    pub bridge: Option<SocketAddr>,
    pub mem: u64,
    pub cpu: u32,
}

/// What a node is to do.
#[derive(Clone, PartialEq, Eq, Debug)]
pub enum Role {
    Bridge,
    /// It is the master of the given nodes.
    Master(SocketAddr, Vec<Node>),
    /// It is the master of the nodes that a file lists.
    MasterFile(SocketAddr, String),
    Worker(SocketAddr),
}

/// What the command line says.
#[derive(Clone, PartialEq, Eq, Debug)]
pub struct Args {
    pub format: Format,
    pub verbose: bool,
    pub role: Role,
}

/// The options that have been read, and how many arguments they took.
pub struct Options {
    pub format: Option<Format>,
    pub verbose: bool,
    /// Whether help is shown, and if so, whether that is a success.
    pub help: Option<bool>,
    pub at: int,
}

/// What reading the options comes to.
pub enum Scanned {
    Options(Options),
    Version,
    BadFormat,
}

pub open spec fn format_named(name: Seq<char>) -> Option<Format> {
    if name == "json"@ {
        Some(Format::Json)
    } else if name == "human"@ {
        Some(Format::Human)
    } else {
        None
    }
}

/// Whether an argument is a format's option and its value in one.
pub open spec fn is_format_option(text: Seq<char>) -> bool {
    text.len() >= 9 && text.take(9) == "--format="@
}

/// Reads options until one that is none, or that was given before. Once the
/// arguments are used up, help is shown.
pub open spec fn scan(args: Seq<Arg>, o: Options) -> Scanned
    decreases
            args.len() - o.at + if o.help is None {
                1int
            } else {
                0int
            },
{
    if o.at < 0 || o.at > args.len() {
        Scanned::Options(o)
    } else if o.at == args.len() {
        if o.help is None {
            scan(args, Options { help: Some(false), ..o })
        } else {
            Scanned::Options(o)
        }
    } else {
        let text = args[o.at].text@;
        if (text == "-h"@ || text == "--help"@) && o.help is None {
            scan(args, Options { help: Some(true), at: o.at + 1, ..o })
        } else if text == "-V"@ || text == "--version"@ {
            Scanned::Version
        } else if (text == "-v"@ || text == "--verbose"@) && !o.verbose {
            scan(args, Options { verbose: true, at: o.at + 1, ..o })
        } else if text == "--format"@ && o.format is None {
            if o.at + 1 < args.len() && format_named(args[o.at + 1].text@) is Some {
                scan(args, Options { format: format_named(args[o.at + 1].text@), at: o.at + 2, ..o })
            } else {
                Scanned::BadFormat
            }
        } else if is_format_option(text) && o.format is None {
            match format_named(text.skip(9)) {
                Some(f) => scan(args, Options { format: Some(f), at: o.at + 1, ..o }),
                None => Scanned::BadFormat,
            }
        } else {
            Scanned::Options(o)
        }
    }
}

/// Before any option has been read.
pub open spec fn no_options() -> Options {
    Options { format: None, verbose: false, help: None, at: 0 }
}

/// The node that the four arguments from `at` on describe, if they do.
pub open spec fn node_at(args: Seq<Arg>, at: int) -> Option<Node> {
    if at + 4 <= args.len() && args[at].addr is Some && (args[at + 1].text@ == "-"@ || args[at
        + 1].addr is Some) && mem_spelled(args[at + 2].text@) is Some && cpu_spelled(
        args[at + 3].text@,
    ) is Some {
        Some(
            Node {
                fabric: args[at].addr.unwrap(),
                bridge: if args[at + 1].text@ == "-"@ {
                    None
                } else {
                    args[at + 1].addr
                },
                mem: mem_spelled(args[at + 2].text@).unwrap() as u64,
                cpu: cpu_spelled(args[at + 3].text@).unwrap() as u32,
            },
        )
    } else {
        None
    }
}

/// The nodes that the arguments from `at` on describe, four for each, if they
/// do.
pub open spec fn nodes_from(args: Seq<Arg>, at: int) -> Option<Seq<Node>>
    decreases args.len() - at,
{
    if at >= args.len() {
        Some(Seq::empty())
    } else {
        match node_at(args, at) {
            Some(node) => match nodes_from(args, at + 4) {
                Some(nodes) => Some(seq![node] + nodes),
                None => None,
            },
            None => None,
        }
    }
}

/// Whether the sizes among the arguments that describe nodes can be read.
pub open spec fn nodes_readable(args: Seq<Arg>, at: int) -> bool
    decreases args.len() - at,
{
    at < args.len() ==> {
        &&& at + 2 < args.len() ==> mem_readable(args[at + 2].text@)
        &&& at + 3 < args.len() ==> cpu_readable(args[at + 3].text@)
        &&& node_at(args, at) is Some ==> nodes_readable(args, at + 4)
    }
}

/// What a node is to do, as a plain value; or what is wrong.
pub enum RoleSaid {
    Bridge,
    Master(SocketAddr, Seq<Node>),
    MasterFile(SocketAddr, Seq<char>),
    Worker(SocketAddr),
    BadNode,
    BadOption(Seq<char>),
}

/// What the arguments from `at` on tell a node to do.
pub open spec fn role_said(args: Seq<Arg>, at: int) -> RoleSaid {
    let first = args[at];
    if first.text@ == "bridge"@ && at + 1 == args.len() {
        RoleSaid::Bridge
    } else {
        match first.addr {
            Some(bind) => if at + 1 == args.len() {
                RoleSaid::Worker(bind)
            } else if at + 2 == args.len() {
                RoleSaid::MasterFile(bind, args[at + 1].text@)
            } else {
                match nodes_from(args, at + 1) {
                    Some(nodes) => RoleSaid::Master(bind, nodes),
                    None => RoleSaid::BadNode,
                }
            },
            None => RoleSaid::BadOption(first.text@),
        }
    }
}

/// Whether the sizes on the command line can be read, as far as they are.
pub open spec fn readable(args: Seq<Arg>) -> bool {
    match scan(args, no_options()) {
        Scanned::Options(o) => o.help is None && args[o.at].addr is Some && o.at + 2 < args.len()
            ==> nodes_readable(args, o.at + 1),
        _ => true,
    }
}

/// Whether a role is the one that was said.
pub open spec fn role_is(role: Role, said: RoleSaid) -> bool {
    match (role, said) {
        (Role::Bridge, RoleSaid::Bridge) => true,
        (Role::Worker(a), RoleSaid::Worker(b)) => a == b,
        (Role::Master(a, nodes), RoleSaid::Master(b, said)) => a == b && nodes@ == said,
        (Role::MasterFile(a, name), RoleSaid::MasterFile(b, said)) => a == b && name@ == said,
        _ => false,
    }
}

/// The text that is shown for help.
pub open spec fn help_text(verbose: bool) -> Seq<char> {
    DESCRIPTION@ + "\n"@ + USAGE@ + "\n"@ + (if verbose {
        VERBOSE_HELP@
    } else {
        HELP@
    })
}

/// The text that is shown for an argument that makes no sense.
pub open spec fn bad_option_text(text: Seq<char>) -> Seq<char> {
    "Invalid option \""@ + text
        + "\", expecting an address to bind to, like 127.0.0.1:9999\n"@ + USAGE@
}

/// Whether `r` is what the command line says, or the text that is shown in place
/// of it and whether that is a success.
pub open spec fn says(args: Seq<Arg>, r: Result<Args, (String, bool)>) -> bool {
    match scan(args, no_options()) {
        Scanned::Version => r matches Err((text, ok)) && text@ == VERSION@ && ok,
        Scanned::BadFormat => r matches Err((text, ok)) && text@ == BAD_FORMAT@ + USAGE@ && !ok,
        Scanned::Options(o) => match o.help {
            Some(success) => r matches Err((text, ok)) && text@ == help_text(o.verbose) && ok
                == success,
            None => match role_said(args, o.at) {
                RoleSaid::BadNode => r matches Err((text, ok)) && text@ == BAD_NODE@ + USAGE@
                    && !ok,
                RoleSaid::BadOption(name) => r matches Err((text, ok)) && text@ == bad_option_text(
                    name,
                ) && !ok,
                said => r matches Ok(a) && role_is(a.role, said) && a.verbose == o.verbose
                    && a.format == (match o.format {
                    Some(f) => f,
                    None => Format::Human,
                }),
            },
        },
    }
}

/// Whether an argument is exactly `literal`.
fn is(arg: &Arg, literal: &str) -> (r: bool)
    ensures
        r == (arg.text@ == literal@),
{
    let cs = chars(arg.text.as_str());
    assert(cs@.skip(0) =~= cs@);
    rest_is(&cs, 0, literal)
}

/// The format that follows position `from`.
fn read_format(cs: &Vec<char>, from: usize) -> (r: Option<Format>)
    requires
        from <= cs.len(),
    ensures
        r == format_named(cs@.skip(from as int)),
{
    if rest_is(cs, from, "json") {
        Some(Format::Json)
    } else if rest_is(cs, from, "human") {
        Some(Format::Human)
    } else {
        None
    }
}

/// Whether an argument is a format's option and its value in one.
fn read_is_format_option(cs: &Vec<char>) -> (r: bool)
    ensures
        r == is_format_option(cs@),
{
    if cs.len() < 9 {
        return false;
    }
    let mut head: Vec<char> = Vec::new();
    for i in 0..9usize
        invariant
            cs.len() >= 9,
            head@ =~= cs@.take(i as int),
    {
        head.push(cs[i]);
    }
    assert(head@.skip(0) =~= head@);
    rest_is(&head, 0, "--format=")
}

/// The options that have been read.
struct Read {
    format: Option<Format>,
    verbose: bool,
    help: Option<bool>,
    at: usize,
}

/// What stopped options from being read.
enum Stop {
    Version,
    BadFormat,
}

fn read_options(args: &Vec<Arg>) -> (r: Result<Read, Stop>)
    ensures
        match r {
            Ok(read) => scan(args@, no_options()) == Scanned::Options(
                Options {
                    format: read.format,
                    verbose: read.verbose,
                    help: read.help,
                    at: read.at as int,
                },
            ) && read.at <= args.len() && (read.help is None ==> read.at < args.len()),
            Err(Stop::Version) => scan(args@, no_options()) is Version,
            Err(Stop::BadFormat) => scan(args@, no_options()) is BadFormat,
        },
{
    let mut format: Option<Format> = None;
    let mut verbose = false;
    let mut help: Option<bool> = None;
    let mut at: usize = 0;
    loop
        invariant
            at <= args.len(),
            scan(args@, no_options()) == scan(
                args@,
                Options { format, verbose, help, at: at as int },
            ),
        decreases
                args.len() - at + if help is None {
                    1int
                } else {
                    0int
                },
    {
        if at == args.len() {
            if help.is_none() {
                help = Some(false);
                continue;
            }
            return Ok(Read { format, verbose, help, at });
        }
        let arg = &args[at];
        let cs = chars(arg.text.as_str());
        assert(cs@.skip(0) =~= cs@);
        if (rest_is(&cs, 0, "-h") || rest_is(&cs, 0, "--help")) && help.is_none() {
            help = Some(true);
            at = at + 1;
        } else if rest_is(&cs, 0, "-V") || rest_is(&cs, 0, "--version") {
            return Err(Stop::Version);
        } else if (rest_is(&cs, 0, "-v") || rest_is(&cs, 0, "--verbose")) && !verbose {
            verbose = true;
            at = at + 1;
        } else if rest_is(&cs, 0, "--format") && format.is_none() {
            if at + 1 >= args.len() {
                return Err(Stop::BadFormat);
            }
            let value = chars(args[at + 1].text.as_str());
            assert(value@.skip(0) =~= value@);
            match read_format(&value, 0) {
                Some(f) => {
                    format = Some(f);
                    at = at + 2;
                },
                None => {
                    return Err(Stop::BadFormat);
                },
            }
        } else if read_is_format_option(&cs) && format.is_none() {
            match read_format(&cs, 9) {
                Some(f) => {
                    format = Some(f);
                    at = at + 1;
                },
                None => {
                    return Err(Stop::BadFormat);
                },
            }
        } else {
            return Ok(Read { format, verbose, help, at });
        }
    }
}

/// The node that the four arguments from `at` on describe: `None` where a size
/// among them cannot be read, and `Some(None)` where they describe none.
fn read_node(args: &Vec<Arg>, at: usize) -> (r: Option<Option<Node>>)
    requires
        at < args.len(),
    ensures
        match r {
            None => !((at + 2 < args.len() ==> mem_readable(args@[at + 2].text@)) && (at + 3
                < args.len() ==> cpu_readable(args@[at + 3].text@))),
            Some(node) => node == node_at(args@, at as int) && (at + 2 < args.len()
                ==> mem_readable(args@[at + 2].text@)) && (at + 3 < args.len() ==> cpu_readable(
                args@[at + 3].text@,
            )),
        },
{
    let left: usize = args.len() - at;
    let mem = if left > 2 {
        match Mem::try_read(args[at + 2].text.as_str()) {
            None => {
                return None;
            },
            Some(mem) => mem,
        }
    } else {
        Err(())
    };
    let cpu = if left > 3 {
        match Cpu::try_read(args[at + 3].text.as_str()) {
            None => {
                return None;
            },
            Some(cpu) => cpu,
        }
    } else {
        Err(())
    };
    if left < 4 {
        return Some(None);
    }
    let none = is(&args[at + 1], "-");
    match (args[at].addr, none || args[at + 1].addr.is_some(), mem, cpu) {
        (Some(fabric), true, Ok(mem), Ok(cpu)) => Some(
            Some(
                Node {
                    fabric,
                    bridge: if none {
                        None
                    } else {
                        args[at + 1].addr
                    },
                    mem: mem.0,
                    cpu: cpu.0,
                },
            ),
        ),
        _ => Some(None),
    }
}

/// The nodes that the arguments from `from` on describe: `None` where a size
/// among them cannot be read, and `Some(None)` where they describe none.
fn read_nodes(args: &Vec<Arg>, from: usize) -> (r: Option<Option<Vec<Node>>>)
    requires
        from <= args.len(),
    ensures
        match r {
            None => !nodes_readable(args@, from as int),
            Some(None) => nodes_readable(args@, from as int) && nodes_from(args@, from as int)
                is None,
            Some(Some(nodes)) => nodes_readable(args@, from as int) && nodes_from(
                args@,
                from as int,
            ) == Some(nodes@),
        },
{
    let mut nodes: Vec<Node> = Vec::new();
    let mut at: usize = from;
    while at < args.len()
        invariant
            from <= at <= args.len(),
            nodes_readable(args@, from as int) == nodes_readable(args@, at as int),
            nodes_from(args@, from as int) == (match nodes_from(args@, at as int) {
                Some(rest) => Some(nodes@ + rest),
                None => None,
            }),
        decreases args.len() - at,
    {
        match read_node(args, at) {
            None => {
                return None;
            },
            Some(None) => {
                return Some(None);
            },
            Some(Some(node)) => {
                proof {
                    if let Some(rest) = nodes_from(args@, at + 4) {
                        assert(nodes@ + (seq![node] + rest) =~= nodes@.push(node) + rest);
                    }
                }
                nodes.push(node);
                at = at + 4;
            },
        }
    }
    assert(nodes@ + Seq::<Node>::empty() =~= nodes@);
    Some(Some(nodes))
}

impl Args {
    /// Reads the command line, or gives `None` for one that `from_args` does not
    /// take.
    pub fn try_from_args(args: &Vec<Arg>) -> (r: Option<Result<Args, (String, bool)>>)
        ensures
            match r {
                Some(r) => readable(args@) && says(args@, r),
                None => !readable(args@),
            },
    {
        let read = match read_options(args) {
            Ok(read) => read,
            Err(Stop::Version) => {
                return Some(Err((String::from_str(VERSION), true)));
            },
            Err(Stop::BadFormat) => {
                return Some(Err((String::from_str(BAD_FORMAT).concat(USAGE), false)));
            },
        };
        if let Some(success) = read.help {
            let text = String::from_str(DESCRIPTION).concat("\n").concat(USAGE).concat("\n").concat(
                if read.verbose {
                    VERBOSE_HELP
                } else {
                    HELP
                },
            );
            return Some(Err((text, success)));
        }
        let format = match read.format {
            Some(f) => f,
            None => Format::Human,
        };
        let at: usize = read.at;
        let left: usize = args.len() - at;
        let first = &args[at];
        let role = if left == 1 && is(first, "bridge") {
            Role::Bridge
        } else {
            match first.addr {
                Some(bind) => if left == 1 {
                    Role::Worker(bind)
                } else if left == 2 {
                    Role::MasterFile(bind, args[at + 1].text.clone())
                } else {
                    match read_nodes(args, at + 1) {
                        None => {
                            return None;
                        },
                        Some(None) => {
                            return Some(Err((String::from_str(BAD_NODE).concat(USAGE), false)));
                        },
                        Some(Some(nodes)) => Role::Master(bind, nodes),
                    }
                },
                None => {
                    let text = String::from_str("Invalid option \"").concat(
                        first.text.as_str(),
                    ).concat("\", expecting an address to bind to, like 127.0.0.1:9999\n").concat(
                        USAGE,
                    );
                    return Some(Err((text, false)));
                },
            }
        };
        Some(Ok(Args { format, verbose: read.verbose, role }))
    }

    /// Reads the command line. Gives what it says, or the text to be shown in
    /// place of it and whether that is a success.
    pub fn from_args(args: &Vec<Arg>) -> (r: Result<Args, (String, bool)>)
        requires
            readable(args@),
        ensures
            says(args@, r),
    {
        Args::try_from_args(args).unwrap()
    }
}

/// What is wrong with a file that lists no nodes.
pub const NO_NODES: &'static str = "must contain multiple nodes";

/// The nodes that a file lists; there has to be at least one.
pub fn listed_nodes(nodes: Vec<Node>) -> (r: Result<Vec<Node>, String>)
    ensures
        match r {
            Ok(all) => nodes@.len() > 0 && all@ == nodes@,
            Err(text) => nodes@.len() == 0 && text@ == NO_NODES@,
        },
{
    if nodes.len() == 0 {
        Err(String::from_str(NO_NODES))
    } else {
        Ok(nodes)
    }
}

/// How a file that lists nodes looks.
pub const TOML_HINT: &'static str = r#"
It should look something like:

[[nodes]]
fabric_addr = "10.0.0.1:9999"
bridge_bind = "10.0.0.1:8888"
mem = "5 GiB"
cpu = 1

[[nodes]]
fabric_addr = "10.0.0.2:9999"
mem = "5 GiB"
cpu = 1
"#;

/// What is shown for a file that is not laid out like that.
pub fn malformed_toml(error: &str) -> (r: String)
    ensures
        r@ == error@ + TOML_HINT@,
{
    String::from_str(error).concat(TOML_HINT)
}

/// What is shown for a file that cannot be opened.
pub fn unopened_toml(name: &str, error: &str) -> (r: String)
    ensures
        r@ == "Can't open the TOML file \""@ + name@ + "\": "@ + error@,
{
    String::from_str("Can't open the TOML file \"").concat(name).concat("\": ").concat(error)
}

/// What is shown for a file whose nodes cannot be read.
pub fn unparsed_toml(name: &str, error: &str) -> (r: String)
    ensures
        r@ == "Can't parse the TOML file \""@ + name@ + "\": "@ + error@,
{
    String::from_str("Can't parse the TOML file \"").concat(name).concat("\": ").concat(error)
}

impl Args {
    /// What a master whose nodes a file lists comes to once the file was read:
    /// `nodes` is what it lists, or what is shown in place of it.
    pub fn with_file(self, nodes: Result<Vec<Node>, String>) -> (r: Result<Args, (String, bool)>)
        ensures
            match (self.role, nodes) {
                (Role::MasterFile(bind, _), Ok(nodes)) => r matches Ok(a) && a.format == self.format
                    && a.verbose == self.verbose && a.role == Role::Master(bind, nodes),
                (Role::MasterFile(_, _), Err(text)) => r matches Err((shown, ok)) && shown@ == text@
                    && !ok,
                _ => r == Ok::<Args, (String, bool)>(self),
            },
    {
        match self.role {
            Role::MasterFile(bind, _) => match nodes {
                Ok(nodes) => Ok(
                    Args {
                        format: self.format,
                        verbose: self.verbose,
                        role: Role::Master(bind, nodes),
                    },
                ),
                Err(text) => Err((text, false)),
            },
            role => Ok(Args { format: self.format, verbose: self.verbose, role }),
        }
    }
}

/// A node that is given no more than options shows the help: where reading them
/// uses up all arguments, help is asked for.
pub proof fn law_only_options_show_help(args: Seq<Arg>, o: Options)
    requires
        0 <= o.at <= args.len(),
    ensures
        scan(args, o) matches Scanned::Options(read) ==> o.at <= read.at <= args.len() && (read.at
            == args.len() ==> read.help is Some),
    decreases
            args.len() - o.at + if o.help is None {
                1int
            } else {
                0int
            },
{
    if o.at == args.len() {
        if o.help is None {
            law_only_options_show_help(args, Options { help: Some(false), ..o });
        }
    } else {
        let text = args[o.at].text@;
        if (text == "-h"@ || text == "--help"@) && o.help is None {
            law_only_options_show_help(args, Options { help: Some(true), at: o.at + 1, ..o });
        } else if text == "-V"@ || text == "--version"@ {
        } else if (text == "-v"@ || text == "--verbose"@) && !o.verbose {
            law_only_options_show_help(args, Options { verbose: true, at: o.at + 1, ..o });
        } else if text == "--format"@ && o.format is None {
            if o.at + 1 < args.len() && format_named(args[o.at + 1].text@) is Some {
                law_only_options_show_help(
                    args,
                    Options { format: format_named(args[o.at + 1].text@), at: o.at + 2, ..o },
                );
            }
        } else if is_format_option(text) && o.format is None {
            match format_named(text.skip(9)) {
                Some(f) => {
                    law_only_options_show_help(args, Options { format: Some(f), at: o.at + 1, ..o });
                },
                None => {},
            }
        }
    }
}

/// A master has at least one node, and four arguments for each.
pub proof fn law_four_arguments_each(args: Seq<Arg>, at: int)
    requires
        0 <= at <= args.len(),
        nodes_from(args, at) is Some,
    ensures
        nodes_from(args, at).unwrap().len() * 4 == args.len() - at,
    decreases args.len() - at,
{
    if at < args.len() {
        law_four_arguments_each(args, at + 4);
    }
}

/// Where the nodes that a master is told of come from: of each four arguments, the
/// first is where it listens, the second where its bridge is bound to, or a dash, and
/// the others are its memory and its processor time.
pub proof fn law_nodes_are_as_said(args: Seq<Arg>, at: int, k: int)
    requires
        0 <= at <= args.len(),
        nodes_from(args, at) is Some,
        0 <= k < nodes_from(args, at)->0.len(),
    ensures
        ({
            let node = nodes_from(args, at)->0[k];
            let i = at + 4 * k;
            &&& i + 4 <= args.len()
            &&& args[i].addr == Some(node.fabric)
            &&& args[i + 1].text@ == "-"@ ==> node.bridge is None
            &&& args[i + 1].text@ != "-"@ ==> node.bridge is Some && node.bridge == args[i + 1].addr
            &&& mem_spelled(args[i + 2].text@) is Some
            &&& mem_spelled(args[i + 2].text@)->0 <= u64::MAX ==> node.mem == mem_spelled(
                args[i + 2].text@,
            )->0
            &&& cpu_spelled(args[i + 3].text@) is Some
            &&& cpu_spelled(args[i + 3].text@)->0 <= u32::MAX ==> node.cpu == cpu_spelled(
                args[i + 3].text@,
            )->0
        }),
    decreases args.len() - at,
{
    if at < args.len() && k > 0 {
        let rest = nodes_from(args, at + 4)->0;
        assert(nodes_from(args, at)->0[k] == rest[k - 1]);
        if at + 4 <= args.len() {
            law_nodes_are_as_said(args, at + 4, k - 1);
        }
    }
}

/// What a node is told to do: with one address to serve a master there, with an
/// address and a file to be the master of the nodes that the file lists, with an
/// address and more to be the master of those nodes, and without an address to be a
/// bridge or nothing.
pub proof fn law_roles_are_as_said(args: Seq<Arg>, at: int)
    requires
        0 <= at < args.len(),
    ensures
        match role_said(args, at) {
            RoleSaid::Bridge => args.len() == at + 1 && args[at].text@ == "bridge"@,
            RoleSaid::Worker(bind) => args.len() == at + 1 && args[at].addr == Some(bind),
            RoleSaid::MasterFile(bind, name) => args.len() == at + 2 && args[at].addr == Some(bind)
                && name == args[at + 1].text@,
            RoleSaid::Master(bind, nodes) => args.len() > at + 2 && args[at].addr == Some(bind)
                && 4 * nodes.len() == args.len() - at - 1 && nodes.len() > 0,
            RoleSaid::BadNode => args[at].addr is Some && args.len() > at + 2,
            RoleSaid::BadOption(text) => args[at].addr is None && text == args[at].text@,
        },
        args[at].addr is Some && args.len() == at + 1 && args[at].text@ != "bridge"@ ==> role_said(
            args,
            at,
        ) is Worker,
        args[at].addr is Some && args.len() > at + 2 && (args.len() - at - 1) % 4 != 0 ==> role_said(
            args,
            at,
        ) is BadNode,
{
    if args.len() > at + 2 && nodes_from(args, at + 1) is Some {
        law_four_arguments_each(args, at + 1);
    }
}

/// The same options, one argument later and with more words.
spec fn later(o: Options) -> Options {
    Options { at: o.at + 1, verbose: true, ..o }
}

proof fn lemma_later(first: Arg, args: Seq<Arg>, o: Options)
    requires
        0 <= o.at <= args.len(),
        !o.verbose,
        scan(args, o) matches Scanned::Options(read) ==> !read.verbose && (read.at < args.len()
            ==> args[read.at].text@ != "-v"@ && args[read.at].text@ != "--verbose"@),
    ensures
        match scan(args, o) {
            Scanned::Options(read) => scan(seq![first] + args, later(o)) == Scanned::Options(
                later(read),
            ),
            _ => true,
        },
    decreases
            args.len() - o.at + if o.help is None {
                1int
            } else {
                0int
            },
{
    let more = seq![first] + args;
    if o.at == args.len() {
        if o.help is None {
            lemma_later(first, args, Options { help: Some(false), ..o });
        }
    } else {
        assert(more[o.at + 1] == args[o.at]);
        let text = args[o.at].text@;
        if (text == "-h"@ || text == "--help"@) && o.help is None {
            lemma_later(first, args, Options { help: Some(true), at: o.at + 1, ..o });
        } else if text == "-V"@ || text == "--version"@ {
        } else if text == "-v"@ || text == "--verbose"@ {
            law_verbose_stays(args, Options { verbose: true, at: o.at + 1, ..o });
        } else if text == "--format"@ && o.format is None {
            if o.at + 1 < args.len() {
                assert(more[o.at + 2] == args[o.at + 1]);
                if format_named(args[o.at + 1].text@) is Some {
                    lemma_later(
                        first,
                        args,
                        Options { format: format_named(args[o.at + 1].text@), at: o.at + 2, ..o },
                    );
                }
            }
        } else if is_format_option(text) && o.format is None {
            match format_named(text.skip(9)) {
                Some(f) => {
                    lemma_later(first, args, Options { format: Some(f), at: o.at + 1, ..o });
                },
                None => {},
            }
        }
    }
}

/// What was asked for once stays asked for, whatever is read later.
pub proof fn law_verbose_stays(args: Seq<Arg>, o: Options)
    requires
        0 <= o.at <= args.len(),
    ensures
        scan(args, o) matches Scanned::Options(read) ==> {
            &&& o.verbose ==> read.verbose
            &&& o.format is Some ==> read.format == o.format
            &&& o.help is Some ==> read.help == o.help
        },
    decreases
            args.len() - o.at + if o.help is None {
                1int
            } else {
                0int
            },
{
    if o.at == args.len() {
        if o.help is None {
            law_verbose_stays(args, Options { help: Some(false), ..o });
        }
    } else {
        let text = args[o.at].text@;
        if (text == "-h"@ || text == "--help"@) && o.help is None {
            law_verbose_stays(args, Options { help: Some(true), at: o.at + 1, ..o });
        } else if text == "-V"@ || text == "--version"@ {
        } else if (text == "-v"@ || text == "--verbose"@) && !o.verbose {
            law_verbose_stays(args, Options { verbose: true, at: o.at + 1, ..o });
        } else if text == "--format"@ && o.format is None {
            if o.at + 1 < args.len() && format_named(args[o.at + 1].text@) is Some {
                law_verbose_stays(
                    args,
                    Options { format: format_named(args[o.at + 1].text@), at: o.at + 2, ..o },
                );
            }
        } else if is_format_option(text) && o.format is None {
            match format_named(text.skip(9)) {
                Some(f) => {
                    law_verbose_stays(args, Options { format: Some(f), at: o.at + 1, ..o });
                },
                None => {},
            }
        }
    }
}

/// Asking for more words in front of a command line that does not ask for them
/// changes nothing else of what it says.
pub proof fn law_verbose_changes_nothing_else(first: Arg, args: Seq<Arg>)
    requires
        first.text@ == "-v"@ || first.text@ == "--verbose"@,
        scan(args, no_options()) is Options,
        !scan(args, no_options())->Options_0.verbose,
        ({
            let at = scan(args, no_options())->Options_0.at;
            at < args.len() ==> args[at].text@ != "-v"@ && args[at].text@ != "--verbose"@
        }),
    ensures
        ({
            let read = scan(args, no_options())->Options_0;
            let more = scan(seq![first] + args, no_options());
            &&& more is Options
            &&& more->Options_0.verbose
            &&& more->Options_0.format == read.format
            &&& more->Options_0.help == read.help
            &&& more->Options_0.at == read.at + 1
        }),
{
    reveal_strlit("-h");
    reveal_strlit("--help");
    reveal_strlit("-V");
    reveal_strlit("--version");
    reveal_strlit("-v");
    reveal_strlit("--verbose");
    let all = seq![first] + args;
    assert(all[0] == first);
    assert("-v"@[1] != "-h"@[1] && "-v"@[1] != "-V"@[1]);
    assert("--verbose"@[4] != "--help"@[4]);
    assert("--verbose"@[5] != "--version"@[5]);
    assert("-v"@.len() != "--help"@.len());
    assert("--verbose"@.len() != "-h"@.len());
    assert("-v"@.len() != "--version"@.len());
    assert("--verbose"@.len() != "-V"@.len());
    lemma_later(first, args, no_options());
    assert(scan(all, no_options()) == scan(all, later(no_options())));
}

/// Asking for the version or for help comes before all else, and so does a format
/// that makes no sense.
pub proof fn law_what_comes_first_on_a_command_line(args: Seq<Arg>)
    requires
        args.len() > 0,
    ensures
        args[0].text@ == "-V"@ || args[0].text@ == "--version"@ ==> scan(args, no_options())
            is Version,
        args[0].text@ == "-h"@ || args[0].text@ == "--help"@ ==> (scan(args, no_options())
            matches Scanned::Options(read) ==> read.help == Some(true)),
        args[0].text@ == "--format"@ && (args.len() == 1 || (args[1].text@ != "json"@
            && args[1].text@ != "human"@)) ==> scan(args, no_options()) is BadFormat,
        args[0].text@ == "--format"@ && args.len() > 1 && args[1].text@ == "json"@ ==> (scan(
            args,
            no_options(),
        ) matches Scanned::Options(read) ==> read.format == Some(Format::Json)),
        args[0].text@ == "--format"@ && args.len() > 1 && args[1].text@ == "human"@ ==> (scan(
            args,
            no_options(),
        ) matches Scanned::Options(read) ==> read.format == Some(Format::Human)),
        args[0].text@ == "--format=json"@ ==> (scan(args, no_options()) matches Scanned::Options(
            read,
        ) ==> read.format == Some(Format::Json)),
        args[0].text@ == "--format=human"@ ==> (scan(args, no_options()) matches Scanned::Options(
            read,
        ) ==> read.format == Some(Format::Human)),
        args[0].addr is Some && args[0].text@.len() > 0 && args[0].text@[0] != '-' ==> scan(
            args,
            no_options(),
        ) == Scanned::Options(no_options()),
{
    reveal_strlit("-h");
    reveal_strlit("--help");
    reveal_strlit("-V");
    reveal_strlit("--version");
    reveal_strlit("-v");
    reveal_strlit("--verbose");
    reveal_strlit("--format");
    reveal_strlit("--format=");
    reveal_strlit("--format=json");
    reveal_strlit("--format=human");
    reveal_strlit("json");
    reveal_strlit("human");
    let text = args[0].text@;
    let o = no_options();
    assert("json"@.len() != "human"@.len());
    assert("-V"@[1] != "-h"@[1]);
    assert("-V"@.len() != "--help"@.len());
    assert("--version"@.len() != "-h"@.len());
    assert("--version"@.len() != "--help"@.len());
    if text == "-h"@ || text == "--help"@ {
        law_verbose_stays(args, Options { help: Some(true), at: 1, ..o });
    } else if text == "--format"@ {
        assert(text.len() == 8 && text[2] == 'f');
        if args.len() > 1 && format_named(args[1].text@) is Some {
            law_verbose_stays(args, Options { format: format_named(args[1].text@), at: 2, ..o });
        }
    } else if text == "--format=json"@ {
        assert(text.len() == 13);
        assert(text.take(9) =~= "--format="@);
        assert(text.skip(9) =~= "json"@);
        law_verbose_stays(args, Options { format: Some(Format::Json), at: 1, ..o });
    } else if text == "--format=human"@ {
        assert(text.len() == 14);
        assert(text.take(9) =~= "--format="@);
        assert(text.skip(9) =~= "human"@);
        law_verbose_stays(args, Options { format: Some(Format::Human), at: 1, ..o });
    } else if text == "-V"@ || text == "--version"@ {
        assert(text == "-V"@ ==> text[1] == 'V');
        assert(text == "--version"@ ==> text.len() == 9 && text[2] == 'v');
    } else if text.len() > 0 && text[0] != '-' {
        if is_format_option(text) {
            assert(text.take(9)[0] == text[0]);
        }
    }
}

/// What a command line says is one thing: it is taken, or a text is shown in its
/// place. Help that was asked for and the version are a success; what makes no sense
/// is not, and is named in the text.
pub proof fn law_what_makes_no_sense_fails(
    args: Seq<Arg>,
    r: Result<Args, (String, bool)>,
    other: Result<Args, (String, bool)>,
)
    requires
        says(args, r),
        says(args, other),
    ensures
        match (r, other) {
            (Ok(a), Ok(b)) => a.format == b.format && a.verbose == b.verbose,
            (Err((text, ok)), Err((again, fine))) => text@ == again@ && ok == fine,
            _ => false,
        },
        scan(args, no_options()) is Version ==> (r matches Err((text, ok)) && ok),
        scan(args, no_options()) is BadFormat ==> (r matches Err((text, ok)) && !ok),
        (scan(args, no_options()) matches Scanned::Options(o) && o.help is None && (role_said(
            args,
            o.at,
        ) matches RoleSaid::BadOption(name))) ==> (r matches Err((text, ok)) && !ok && exists|
            start: Seq<char>,
            end: Seq<char>,
        |
            text@ == #[trigger] (start + args[scan(args, no_options())->Options_0.at].text@ + end)),
        (r matches Ok(a) ==> (scan(args, no_options()) matches Scanned::Options(o) && o.help is None
            && a.verbose == o.verbose && (o.format matches Some(f) ==> a.format == f) && (o.format
            is None ==> a.format == Format::Human))),
{
    match scan(args, no_options()) {
        Scanned::Options(o) => {
            if o.help is None {
                match role_said(args, o.at) {
                    RoleSaid::BadOption(name) => {
                        let start = "Invalid option \""@;
                        let end = "\", expecting an address to bind to, like 127.0.0.1:9999\n"@ + USAGE@;
                        assert(bad_option_text(name) =~= start + name + end);
                    },
                    _ => {},
                }
            }
        },
        _ => {},
    }
}

} // verus!
