//! The command line of a node of this family.

use super::size::{said_size, try_parse_binary_size};
use crate::net::SocketAddr;
use vstd::prelude::*;

verus! {

/// What the program does.
pub const DESCRIPTION: &'static str = r"
fabric
Run a fabric worker, optionally as master, and optionally start a bridge running
";

/// How the program is started.
pub const USAGE: &'static str = r"
USAGE:
    fabric master (<addr> <mem> <cpu> [<bridge> <addr>]...)...
    fabric <addr>

OPTIONS:
    -h --help          Show this screen.
    -V --version       Show version.
";

/// What a cluster is and how it is started.
pub const HELP: &'static str = r"
A fabric cluster comprises one or more workers, where one is declared master.

The arguments to the master worker are the address and resources of each worker,
including itself. The arguments for a worker can include a binary to spawn
immediately and an address to reserve for it. This is intended to be used to
spawn the bridge, which works with the deploy command and library to handle
transparent capture and forwarding of output and debug information.

The first set of arguments to the master worker is for itself – as such the
address is bound to not connected to.

The argument to non-master workers is the address to bind to.

For example, respective invocations on each of a cluster of 3 servers with
512GiB memory and 36 logical cores apiece might be:
    fabric master 10.0.0.1:9999 400GiB 34 bridge 10.0.0.1:8888 \
                  10.0.0.2:9999 400GiB 34 \
                  10.0.0.3:9999 400GiB 34
    fabric 10.0.0.2:9999
    fabric 10.0.0.3:9999

Deploying to this cluster might then be:
    deploy 10.0.0.1:8888 ./binary
or, for a Rust crate:
    cargo deploy 10.0.0.1:8888
";

/// The name and version of the program.
pub const VERSION: &'static str = "fabric 0.1.0";

/// What is expected of a process that a node is to start.
pub const BAD_BRIDGE: &'static str = "Invalid bridge, expecting bridge: <bridge> <addr> or worker options: <addr> <mem> <cpu>\n";

/// What is expected of a node.
pub const BAD_WORKER: &'static str = "Invalid worker options, expecting <addr> <mem> <cpu>, like 127.0.0.1:9999 400GiB 34\n";

/// An argument of the command line.
#[derive(Clone, Debug)]
pub struct Word {
    pub text: String,
    /// The address that it says, if it says one.
    pub addr: Option<SocketAddr>,
    /// Whether it says a number.
    pub number: bool,
}

/// A process that a node is to start, with an address that is kept for it.
#[derive(Clone, Debug)]
pub struct Run {
    pub binary: String,
    pub addr: SocketAddr,
}

/// A node: its address, its memory in bytes, how many processors it has, as
/// written, and what it is to start.
#[derive(Clone, Debug)]
pub struct Node {
    pub addr: SocketAddr,
    pub mem: u64,
    pub cpu: String,
    pub run: Vec<Run>,
}

/// What a node is told to be.
#[derive(Clone, Debug)]
pub enum Role {
    Master(Vec<Node>),
    Worker(SocketAddr),
}

/// Why the program does not run.
#[derive(Copy, Clone, PartialEq, Eq, Debug, Structural)]
pub enum Stop {
    /// It shows what it is for.
    Help,
    /// It shows its version.
    Version,
    /// The first argument makes no sense.
    BadOption,
    /// A process that a node is to start makes no sense.
    BadBridge,
    /// A node makes no sense.
    BadWorker,
}

/// A process that a node is to start.
pub struct RunView {
    pub binary: Seq<char>,
    pub addr: SocketAddr,
}

/// A node.
#[verifier::ext_equal]
pub struct NodeView {
    pub addr: SocketAddr,
    pub mem: u64,
    pub cpu: Seq<char>,
    pub run: Seq<RunView>,
}

impl View for Run {
    type V = RunView;

    open spec fn view(&self) -> RunView {
        RunView { binary: self.binary@, addr: self.addr }
    }
}

impl View for Node {
    type V = NodeView;

    open spec fn view(&self) -> NodeView {
        NodeView {
            addr: self.addr,
            mem: self.mem,
            cpu: self.cpu@,
            run: self.run@.map_values(|run: Run| run@),
        }
    }
}

/// Where the processes end that start at `at`: at an address or at the end.
/// `None` if one of them has no address.
pub open spec fn runs_end(words: Seq<Word>, at: int) -> Option<int>
    decreases words.len() - at,
{
    if at < 0 || at >= words.len() || words[at].addr is Some {
        Some(at)
    } else if at + 1 < words.len() && words[at + 1].addr is Some {
        runs_end(words, at + 2)
    } else {
        None
    }
}

/// The processes from `at` to `end`.
pub open spec fn runs(words: Seq<Word>, at: int, end: int) -> Seq<RunView>
    decreases end - at,
{
    if at + 1 >= end {
        seq![]
    } else {
        seq![RunView { binary: words[at].text@, addr: words[at + 1].addr->0 }] + runs(
            words,
            at + 2,
            end,
        )
    }
}

/// Whether the size where a node at `at` has its memory can be told.
pub open spec fn size_tellable(words: Seq<Word>, at: int) -> bool {
    at + 1 < words.len() ==> said_size(words[at + 1].text@) is Some
}

/// Whether a node starts at `at`: an address, a size and a number.
pub open spec fn starts_node(words: Seq<Word>, at: int) -> bool {
    &&& 0 <= at
    &&& at + 2 < words.len()
    &&& words[at].addr is Some
    &&& said_size(words[at + 1].text@) matches Some(Ok(_))
    &&& words[at + 2].number
}

/// The nodes from `at` on; the outer `None` if a size cannot be told.
pub open spec fn nodes_from(words: Seq<Word>, at: int) -> Option<Result<Seq<NodeView>, Stop>>
    decreases words.len() - at,
{
    if !size_tellable(words, at) {
        None
    } else if at >= words.len() {
        Some(Ok(seq![]))
    } else if !starts_node(words, at) {
        Some(Err(Stop::BadWorker))
    } else {
        match runs_end(words, at + 3) {
            None => Some(Err(Stop::BadBridge)),
            Some(end) => if end <= at || end > words.len() {
                None
            } else {
                match nodes_from(words, end) {
                    Some(Ok(rest)) => Some(
                        Ok(
                            seq![
                                NodeView {
                                    addr: words[at].addr->0,
                                    mem: said_size(words[at + 1].text@)->0->Ok_0,
                                    cpu: words[at + 2].text@,
                                    run: runs(words, at + 3, end),
                                },
                            ] + rest,
                        ),
                    ),
                    other => other,
                }
            },
        }
    }
}

/// What the command line says.
pub enum RoleView {
    Master(Seq<NodeView>),
    Worker(SocketAddr),
}

/// What the command line `words` says; the outer `None` if a size cannot be
/// told.
pub open spec fn said(words: Seq<Word>) -> Option<Result<RoleView, Stop>> {
    if words.len() == 0 {
        Some(Err(Stop::Help))
    } else if words[0].text@ == "master"@ {
        if words.len() == 1 {
            Some(Err(Stop::BadWorker))
        } else {
            match nodes_from(words, 1) {
                Some(Ok(nodes)) => Some(Ok(RoleView::Master(nodes))),
                Some(Err(stop)) => Some(Err(stop)),
                None => None,
            }
        }
    } else if words[0].text@ == "-h"@ || words[0].text@ == "--help"@ {
        Some(Err(Stop::Help))
    } else if words[0].text@ == "-V"@ || words[0].text@ == "--version"@ {
        Some(Err(Stop::Version))
    } else if words[0].addr is Some {
        Some(Ok(RoleView::Worker(words[0].addr->0)))
    } else {
        Some(Err(Stop::BadOption))
    }
}

/// The nodes, as they are told of.
pub open spec fn views(nodes: Seq<Node>) -> Seq<NodeView> {
    nodes.map_values(|node: Node| node@)
}

proof fn lemma_runs_end(words: Seq<Word>, at: int)
    requires
        0 <= at <= words.len(),
    ensures
        runs_end(words, at) matches Some(end) ==> at <= end <= words.len(),
    decreases words.len() - at,
{
    if at < words.len() && words[at].addr is None && at + 1 < words.len() {
        lemma_runs_end(words, at + 2);
    }
}

proof fn lemma_runs_more(words: Seq<Word>, from: int, at: int)
    requires
        from <= at,
        (at - from) % 2 == 0,
    ensures
        runs(words, from, at + 2) == runs(words, from, at).push(
            RunView { binary: words[at].text@, addr: words[at + 1].addr->0 },
        ),
    decreases at - from,
{
    let more = RunView { binary: words[at].text@, addr: words[at + 1].addr->0 };
    if from == at {
        assert(runs(words, at + 2, at + 2) =~= seq![]);
        assert(runs(words, from, at + 2) =~= seq![].push(more));
    } else {
        lemma_runs_more(words, from + 2, at);
        assert(runs(words, from, at + 2) =~= runs(words, from, at).push(more));
    }
}

/// Reads the processes that a node is to start, from `from` on, and gives where
/// they end.
fn read_runs(words: &Vec<Word>, from: usize) -> (r: Option<(Vec<Run>, usize)>)
    requires
        from <= words.len(),
    ensures
        match r {
            Some((run, end)) => runs_end(words@, from as int) == Some(end as int) && from <= end
                <= words.len() && run@.map_values(|run: Run| run@) == runs(
                words@,
                from as int,
                end as int,
            ),
            None => runs_end(words@, from as int) is None,
        },
{
    let mut run: Vec<Run> = Vec::new();
    let mut at: usize = from;
    assert(run@.map_values(|run: Run| run@) =~= runs(words@, from as int, from as int));
    while at < words.len() && words[at].addr.is_none()
        invariant
            from <= at <= words.len(),
            (at - from) % 2 == 0,
            runs_end(words@, from as int) == runs_end(words@, at as int),
            run@.map_values(|run: Run| run@) == runs(words@, from as int, at as int),
        decreases words.len() - at,
    {
        if at + 1 >= words.len() {
            return None;
        }
        match words[at + 1].addr {
            Some(addr) => {
                let next = Run { binary: words[at].text.clone(), addr };
                proof {
                    lemma_runs_more(words@, from as int, at as int);
                    assert(run@.push(next).map_values(|run: Run| run@) =~= run@.map_values(
                        |run: Run| run@,
                    ).push(next@));
                }
                run.push(next);
                at += 2;
            },
            None => {
                return None;
            },
        }
    }
    Some((run, at))
}

/// Reads the nodes from `from` on.
fn read_nodes(words: &Vec<Word>, from: usize) -> (r: Option<Result<Vec<Node>, Stop>>)
    requires
        from <= words.len() < usize::MAX,
    ensures
        match r {
            Some(Ok(nodes)) => nodes_from(words@, from as int) == Some(
                Ok::<_, Stop>(views(nodes@)),
            ),
            Some(Err(stop)) => nodes_from(words@, from as int) == Some(
                Err::<Seq<NodeView>, _>(stop),
            ),
            None => nodes_from(words@, from as int) is None,
        },
    decreases words.len() - from,
{
    let mut nodes: Vec<Node> = Vec::new();
    let mut at: usize = from;
    assert(views(nodes@) =~= seq![]);
    proof {
        if let Some(Ok(rest)) = nodes_from(words@, from as int) {
            assert(views(nodes@) + rest =~= rest);
        }
    }
    loop
        invariant
            from <= at <= words.len() < usize::MAX,
            match nodes_from(words@, at as int) {
                Some(Ok(rest)) => nodes_from(words@, from as int) == Some(
                    Ok::<_, Stop>(views(nodes@) + rest),
                ),
                other => nodes_from(words@, from as int) == other,
            },
        decreases words.len() - at,
    {
        let left: usize = words.len() - at;
        let mem = if left > 1 {
            match try_parse_binary_size(words[at + 1].text.as_str()) {
                Some(mem) => mem,
                None => {
                    return None;
                },
            }
        } else {
            Err(())
        };
        if left == 0 {
            assert(views(nodes@) + seq![] =~= views(nodes@));
            return Some(Ok(nodes));
        }
        if left < 3 || !words[at + 2].number {
            return Some(Err(Stop::BadWorker));
        }
        match (words[at].addr, mem) {
            (Some(addr), Ok(mem)) => {
                proof {
                    lemma_runs_end(words@, at + 3);
                }
                match read_runs(words, at + 3) {
                    None => {
                        return Some(Err(Stop::BadBridge));
                    },
                    Some((run, end)) => {
                        let node = Node { addr, mem, cpu: words[at + 2].text.clone(), run };
                        proof {
                            assert(views(nodes@.push(node)) =~= views(nodes@).push(node@));
                            if let Some(Ok(rest)) = nodes_from(words@, end as int) {
                                assert(views(nodes@) + (seq![node@] + rest) =~= views(nodes@).push(
                                    node@,
                                ) + rest);
                            }
                        }
                        nodes.push(node);
                        at = end;
                    },
                }
            },
            _ => {
                return Some(Err(Stop::BadWorker));
            },
        }
    }
}

impl Role {
    /// What the command line `words` says, without the name of the program. The
    /// outer `None` if a size in it cannot be told.
    pub fn from_argv(words: &Vec<Word>) -> (r: Option<Result<Role, Stop>>)
        requires
            words.len() < usize::MAX,
        ensures
            match r {
                Some(Ok(Role::Master(nodes))) => said(words@) == Some(
                    Ok::<_, Stop>(RoleView::Master(views(nodes@))),
                ),
                Some(Ok(Role::Worker(addr))) => said(words@) == Some(
                    Ok::<_, Stop>(RoleView::Worker(addr)),
                ),
                Some(Err(stop)) => said(words@) == Some(Err::<RoleView, _>(stop)),
                None => said(words@) is None,
            },
    {
        if words.len() == 0 {
            return Some(Err(Stop::Help));
        }
        let first = &words[0];
        if first.text == String::from_str("master") {
            if words.len() == 1 {
                return Some(Err(Stop::BadWorker));
            }
            return match read_nodes(words, 1) {
                Some(Ok(nodes)) => Some(Ok(Role::Master(nodes))),
                Some(Err(stop)) => Some(Err(stop)),
                None => None,
            };
        }
        if first.text == String::from_str("-h") || first.text == String::from_str("--help") {
            return Some(Err(Stop::Help));
        }
        if first.text == String::from_str("-V") || first.text == String::from_str("--version") {
            return Some(Err(Stop::Version));
        }
        match first.addr {
            Some(addr) => Some(Ok(Role::Worker(addr))),
            None => Some(Err(Stop::BadOption)),
        }
    }
}

impl Stop {
    /// What is shown when the program does not run. `first` is its first
    /// argument.
    pub open spec fn shown(self, first: Seq<char>) -> Seq<char> {
        match self {
            Stop::Help => DESCRIPTION@ + USAGE@ + HELP@,
            Stop::Version => VERSION@,
            Stop::BadOption => "Invalid option \""@ + first
                + "\", expecting either \"master\" or an address, like 127.0.0.1:9999\n"@ + USAGE@,
            Stop::BadBridge => BAD_BRIDGE@ + USAGE@,
            Stop::BadWorker => BAD_WORKER@ + USAGE@,
        }
    }

    /// What is shown when the program does not run.
    pub fn message(self, first: &str) -> (r: String)
        ensures
            r@ == self.shown(first@),
    {
        match self {
            Stop::Help => String::from_str(DESCRIPTION).concat(USAGE).concat(HELP),
            Stop::Version => String::from_str(VERSION),
            Stop::BadOption => String::from_str("Invalid option \"").concat(first).concat(
                "\", expecting either \"master\" or an address, like 127.0.0.1:9999\n",
            ).concat(USAGE),
            Stop::BadBridge => String::from_str(BAD_BRIDGE).concat(USAGE),
            Stop::BadWorker => String::from_str(BAD_WORKER).concat(USAGE),
        }
    }

    /// The code with which the program ends then.
    pub fn code(self) -> (r: i32)
        ensures
            r == (if self == Stop::Help || self == Stop::Version {
                0i32
            } else {
                1i32
            }),
    {
        match self {
            Stop::Help | Stop::Version => 0,
            _ => 1,
        }
    }
}

/// A master always has a node to begin with: itself.
pub proof fn law_a_master_has_nodes(words: Seq<Word>)
    ensures
        said(words) matches Some(Ok(RoleView::Master(nodes))) ==> nodes.len() > 0 && words.len() >= 4
            && words[1].addr == Some(nodes[0].addr),
{
}

/// How many words tell of the first `k` nodes: three of each, and two of each bridge.
pub open spec fn words_before(nodes: Seq<NodeView>, k: int) -> int
    decreases k,
{
    if k <= 0 {
        0
    } else {
        words_before(nodes, k - 1) + 3 + 2 * nodes[k - 1].run.len()
    }
}

proof fn lemma_words_before(first: NodeView, rest: Seq<NodeView>, k: int)
    requires
        0 <= k <= rest.len(),
    ensures
        words_before(seq![first] + rest, k + 1) == 3 + 2 * first.run.len() + words_before(rest, k),
    decreases k,
{
    let all = seq![first] + rest;
    if k == 0 {
        assert(words_before(all, 0) == 0);
        assert(all[0] == first);
        assert(words_before(all, 1) == words_before(all, 0) + 3 + 2 * all[0].run.len());
    } else {
        lemma_words_before(first, rest, k - 1);
        assert(all[k] == rest[k - 1]);
    }
}

proof fn lemma_runs(words: Seq<Word>, at: int, end: int)
    requires
        0 <= at,
        runs_end(words, at) == Some(end),
        end <= words.len(),
    ensures
        end == at + 2 * runs(words, at, end).len(),
        forall|i: int|
            0 <= i < runs(words, at, end).len() ==> {
                let run = #[trigger] runs(words, at, end)[i];
                &&& words[at + 2 * i].text@ == run.binary
                &&& words[at + 2 * i].addr is None
                &&& words[at + 2 * i + 1].addr == Some(run.addr)
            },
        end == words.len() || words[end].addr is Some,
    decreases words.len() - at,
{
    if at < words.len() && words[at].addr is None {
        lemma_runs_end(words, at + 2);
        lemma_runs(words, at + 2, end);
        let rest = runs(words, at + 2, end);
        let all = runs(words, at, end);
        assert forall|i: int| 0 <= i < all.len() implies {
            let run = #[trigger] all[i];
            &&& words[at + 2 * i].text@ == run.binary
            &&& words[at + 2 * i].addr is None
            &&& words[at + 2 * i + 1].addr == Some(run.addr)
        } by {
            if i > 0 {
                assert(all[i] == rest[i - 1]);
            }
        }
    }
}

/// Where the nodes that a master is told of come from: the words of each are its
/// address, its memory and its cores, and then of each bridge its program, which is
/// no address, and its address; and there are no other words.
pub proof fn law_nodes_are_as_said(words: Seq<Word>, at: int, k: int)
    requires
        0 <= at <= words.len(),
        nodes_from(words, at) matches Some(Ok(_)),
        0 <= k < nodes_from(words, at)->0->Ok_0.len(),
    ensures
        ({
            let nodes = nodes_from(words, at)->0->Ok_0;
            let i = at + words_before(nodes, k);
            &&& at + words_before(nodes, nodes.len() as int) == words.len()
            &&& at <= i
            &&& i + 3 + 2 * nodes[k].run.len() <= words.len()
            &&& words[i].addr == Some(nodes[k].addr)
            &&& said_size(words[i + 1].text@) == Some(Ok::<u64, ()>(nodes[k].mem))
            &&& words[i + 2].text@ == nodes[k].cpu
            &&& words[i + 2].number
            &&& forall|j: int|
                0 <= j < nodes[k].run.len() ==> {
                    let run = #[trigger] nodes[k].run[j];
                    &&& words[i + 3 + 2 * j].text@ == run.binary
                    &&& words[i + 3 + 2 * j].addr is None
                    &&& words[i + 4 + 2 * j].addr == Some(run.addr)
                }
        }),
    decreases words.len() - at,
{
    let nodes = nodes_from(words, at)->0->Ok_0;
    let end = runs_end(words, at + 3)->0;
    let rest = nodes_from(words, end)->0->Ok_0;
    let first = nodes[0];
    lemma_runs_end(words, at + 3);
    lemma_runs(words, at + 3, end);
    assert(nodes == seq![first] + rest);
    lemma_words_before(first, rest, rest.len() as int);
    if rest.len() == 0 {
        assert(words_before(rest, 0) == 0);
        if end < words.len() {
            assert(nodes_from(words, end)->0->Ok_0.len() > 0);
        }
    } else {
        law_nodes_are_as_said(words, end, if k > 0 {
            k - 1
        } else {
            0
        });
    }
    if k > 0 {
        lemma_words_before(first, rest, k - 1);
        assert(nodes[k] == rest[k - 1]);
    } else {
        assert(words_before(nodes, 0) == 0);
    }
}

/// What comes first says what a node is to do: to be the master of those that follow,
/// to serve one at an address, or to show how it is used.
pub proof fn law_the_first_word_decides(words: Seq<Word>)
    requires
        words.len() > 0,
    ensures
        words[0].text@ == "master"@ <==> (said(words) is None || said(words) == Some(
            Err::<RoleView, _>(Stop::BadWorker),
        ) || said(words) == Some(Err::<RoleView, _>(Stop::BadBridge)) || (said(words) matches Some(
            Ok(RoleView::Master(_)),
        ))),
        (said(words) matches Some(Ok(RoleView::Worker(addr))) ==> words[0].addr == Some(addr)),
        said(words) == Some(Err::<RoleView, _>(Stop::Version)) <==> words[0].text@ == "-V"@
            || words[0].text@ == "--version"@,
        said(words) == Some(Err::<RoleView, _>(Stop::Help)) <==> words[0].text@ == "-h"@
            || words[0].text@ == "--help"@,
        said(words) == Some(Err::<RoleView, _>(Stop::BadOption)) ==> words[0].addr is None,
        said(Seq::<Word>::empty()) == Some(Err::<RoleView, _>(Stop::Help)),
{
    reveal_strlit("master");
    reveal_strlit("-h");
    reveal_strlit("--help");
    reveal_strlit("-V");
    reveal_strlit("--version");
    assert("-h"@[1] != "-V"@[1]);
    assert("-h"@.len() == 2 && "-V"@.len() == 2 && "--help"@.len() == 6 && "--version"@.len() == 9
        && "master"@.len() == 6);
    assert("--help"@[0] != "master"@[0]);
    if words[0].text@ == "master"@ && words.len() > 1 {
        lemma_how_it_stops(words, 1);
    }
}

proof fn lemma_how_it_stops(words: Seq<Word>, at: int)
    requires
        0 <= at,
    ensures
        (nodes_from(words, at) matches Some(Err(stop)) ==> stop == Stop::BadWorker || stop
            == Stop::BadBridge),
    decreases words.len() - at,
{
    if size_tellable(words, at) && at < words.len() && starts_node(words, at) {
        match runs_end(words, at + 3) {
            Some(end) => {
                if at < end <= words.len() {
                    lemma_how_it_stops(words, end);
                }
            },
            None => {},
        }
    }
}

/// What stops a node is told apart by its words: what the command line got wrong comes
/// before how it is used, and an option that makes no sense is named.
pub proof fn law_messages_say_what_is_wrong(first: Seq<char>)
    ensures
        ({
            let n = USAGE@.len() as int;
            let option = Stop::BadOption.shown(first);
            let bridge = Stop::BadBridge.shown(first);
            let worker = Stop::BadWorker.shown(first);
            &&& bridge != worker
            &&& bridge != option
            &&& worker != option
            &&& option.skip(option.len() - n) == USAGE@
            &&& bridge.skip(bridge.len() - n) == USAGE@
            &&& worker.skip(worker.len() - n) == USAGE@
            &&& option.subrange(16, 16 + first.len() as int) == first
        }),
{
    let n = USAGE@.len() as int;
    let option = Stop::BadOption.shown(first);
    let bridge = Stop::BadBridge.shown(first);
    let worker = Stop::BadWorker.shown(first);
    reveal_strlit("Invalid option \"");
    reveal_strlit(
        "Invalid bridge, expecting bridge: <bridge> <addr> or worker options: <addr> <mem> <cpu>\n",
    );
    reveal_strlit(
        "Invalid worker options, expecting <addr> <mem> <cpu>, like 127.0.0.1:9999 400GiB 34\n",
    );
    assert(bridge[8] == 'b');
    assert(worker[8] == 'w');
    assert(option[8] == 'o');
    assert(option.skip(option.len() - n) =~= USAGE@);
    assert(bridge.skip(bridge.len() - n) =~= USAGE@);
    assert(worker.skip(worker.len() - n) =~= USAGE@);
    assert(option.subrange(16, 16 + first.len() as int) =~= first);
}

} // verus!
