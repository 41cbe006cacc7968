//! The companion of a process: it passes on what the process writes and
//! reports, hands it its input, and tells at last how it ended.

use crate::event::{ProcessInputEvent, ProcessOutputEvent};
use crate::exit::ExitStatus;
use crate::net::SocketAddr;
use vstd::prelude::*;

verus! {

pub const STDIN: i32 = 0;

/// The input of the process.
#[derive(Copy, Clone, PartialEq, Eq, Debug, Structural)]
pub enum Input {
    /// The process can be given more.
    Open,
    /// A write failed, so all that comes is dropped.
    Deaf,
    /// The end of the input was passed on.
    Ended,
}

/// A companion of a process.
#[derive(Copy, Clone, PartialEq, Eq, Debug)]
pub struct Monitor {
    /// Whether the standard output of the process can still give something.
    pub stdout: bool,
    /// Whether the standard error of the process can still give something.
    pub stderr: bool,
    /// Whether the process can still report something.
    pub reports: bool,
    pub input: Input,
    /// How the process ended, once it did.
    pub ended: Option<ExitStatus>,
    /// Whether that was told.
    pub told: bool,
}

/// What happens to a companion.
pub enum Happening {
    /// This was read from standard output; nothing, if it is at its end.
    Stdout(Vec<u8>),
    /// This was read from standard error; nothing, if it is at its end.
    Stderr(Vec<u8>),
    /// The process reported this.
    Report(ProcessOutputEvent),
    /// The process cannot report any more.
    NoMoreReports,
    /// The process was told this.
    Told(ProcessInputEvent),
    /// A write to the input of the process failed.
    WriteFailed,
    /// The process ended.
    Ended(ExitStatus),
}

/// What a companion has done.
pub enum Deed {
    /// Tell this to whoever watches over the program.
    Send(ProcessOutputEvent),
    /// Write this to the input of the process.
    Write(Vec<u8>),
    /// Close the input of the process.
    CloseInput,
    /// Kill the process.
    Kill,
}

pub const STDOUT: i32 = 1;

pub const STDERR: i32 = 2;

impl Monitor {
    /// A process that has just started.
    pub open spec fn started() -> Monitor {
        Monitor {
            stdout: true,
            stderr: true,
            reports: true,
            input: Input::Open,
            ended: None,
            told: false,
        }
    }

    /// Whether `happening` can happen now.
    pub open spec fn possible(self, happening: Happening) -> bool {
        match happening {
            Happening::Stdout(_) => self.stdout,
            Happening::Stderr(_) => self.stderr,
            Happening::Report(event) => self.reports && !(event is Exit),
            Happening::NoMoreReports => self.reports,
            Happening::Told(ProcessInputEvent::Input(fd, _)) => !self.told && fd == STDIN
                && self.input != Input::Ended,
            Happening::Told(ProcessInputEvent::Kill) => !self.told,
            Happening::WriteFailed => self.input == Input::Open,
            Happening::Ended(_) => self.ended is None,
        }
    }

    /// The companion once `happening` is noted, before it looks whether all is
    /// over.
    pub open spec fn noted(self, happening: Happening) -> (Monitor, Seq<Deed>) {
        match happening {
            Happening::Stdout(bytes) => (
                Monitor { stdout: bytes@.len() > 0, ..self },
                seq![Deed::Send(ProcessOutputEvent::Output(STDOUT, bytes))],
            ),
            Happening::Stderr(bytes) => (
                Monitor { stderr: bytes@.len() > 0, ..self },
                seq![Deed::Send(ProcessOutputEvent::Output(STDERR, bytes))],
            ),
            Happening::Report(event) => (self, seq![Deed::Send(event)]),
            Happening::NoMoreReports => (Monitor { reports: false, ..self }, seq![]),
            Happening::Told(ProcessInputEvent::Input(_, bytes)) => if self.input == Input::Deaf {
                (self, seq![])
            } else if bytes@.len() > 0 {
                (self, seq![Deed::Write(bytes)])
            } else {
                (Monitor { input: Input::Ended, ..self }, seq![Deed::CloseInput])
            },
            Happening::Told(ProcessInputEvent::Kill) => (self, seq![Deed::Kill]),
            Happening::WriteFailed => (
                Monitor { input: Input::Deaf, ..self },
                seq![Deed::CloseInput],
            ),
            Happening::Ended(status) => (Monitor { ended: Some(status), ..self }, seq![]),
        }
    }

    /// Whether nothing can come of the process any more.
    pub open spec fn silent(self) -> bool {
        self.ended is Some && !self.stdout && !self.stderr && !self.reports
    }

    /// The companion after `happening`, and what it has done: once nothing can
    /// come of the process any more, it tells how the process ended.
    pub open spec fn after(self, happening: Happening) -> (Monitor, Seq<Deed>) {
        let (next, deeds) = self.noted(happening);
        if next.silent() && !next.told {
            (
                Monitor { told: true, ..next },
                deeds.push(Deed::Send(ProcessOutputEvent::Exit(next.ended->0))),
            )
        } else {
            (next, deeds)
        }
    }

    /// A process that has just started.
    pub fn new() -> (r: Monitor)
        ensures
            r == Monitor::started(),
    {
        Monitor {
            stdout: true,
            stderr: true,
            reports: true,
            input: Input::Open,
            ended: None,
            told: false,
        }
    }

    /// Whether `happening` can happen now.
    pub fn accepts(&self, happening: &Happening) -> (r: bool)
        ensures
            r == self.possible(*happening),
    {
        match happening {
            Happening::Stdout(_) => self.stdout,
            Happening::Stderr(_) => self.stderr,
            Happening::Report(event) => {
                self.reports && match event {
                    ProcessOutputEvent::Exit(_) => false,
                    _ => true,
                }
            },
            Happening::NoMoreReports => self.reports,
            Happening::Told(ProcessInputEvent::Input(fd, _)) => !self.told && *fd == STDIN
                && self.input != Input::Ended,
            Happening::Told(ProcessInputEvent::Kill) => !self.told,
            Happening::WriteFailed => self.input == Input::Open,
            Happening::Ended(_) => self.ended.is_none(),
        }
    }

    /// Takes note of `happening` and says what is to be done, in this order.
    pub fn handle(&mut self, happening: Happening) -> (deeds: Vec<Deed>)
        requires
            old(self).possible(happening),
        ensures
            *final(self) == old(self).after(happening).0,
            deeds@ == old(self).after(happening).1,
    {
        let mut deeds: Vec<Deed> = Vec::new();
        match happening {
            Happening::Stdout(bytes) => {
                self.stdout = bytes.len() > 0;
                deeds.push(Deed::Send(ProcessOutputEvent::Output(STDOUT, bytes)));
            },
            Happening::Stderr(bytes) => {
                self.stderr = bytes.len() > 0;
                deeds.push(Deed::Send(ProcessOutputEvent::Output(STDERR, bytes)));
            },
            Happening::Report(event) => {
                deeds.push(Deed::Send(event));
            },
            Happening::NoMoreReports => {
                self.reports = false;
            },
            Happening::Told(ProcessInputEvent::Input(_, bytes)) => {
                if self.input != Input::Deaf {
                    if bytes.len() > 0 {
                        deeds.push(Deed::Write(bytes));
                    } else {
                        self.input = Input::Ended;
                        deeds.push(Deed::CloseInput);
                    }
                }
            },
            Happening::Told(ProcessInputEvent::Kill) => {
                deeds.push(Deed::Kill);
            },
            Happening::WriteFailed => {
                self.input = Input::Deaf;
                deeds.push(Deed::CloseInput);
            },
            Happening::Ended(status) => {
                self.ended = Some(status);
            },
        }
        assert(deeds@ =~= old(self).noted(happening).1);
        if !self.told && !self.stdout && !self.stderr && !self.reports {
            if let Some(status) = self.ended {
                self.told = true;
                deeds.push(Deed::Send(ProcessOutputEvent::Exit(status)));
            }
        }
        deeds
    }
}

/// Whether a connection from `remote` is passed on to the process. Those of the
/// one who watches over the program at `bridge` are for the companion itself,
/// and so are those whose other end is not known.
pub fn passes_on(remote: Option<SocketAddr>, bridge: SocketAddr) -> (r: bool)
    ensures
        r == (remote is Some && remote->0 != bridge),
{
    match remote {
        Some(remote) => remote != bridge,
        None => false,
    }
}

/// The companion after all of `happenings`, and what it has done.
pub open spec fn after_all(monitor: Monitor, happenings: Seq<Happening>) -> (Monitor, Seq<Deed>)
    decreases happenings.len(),
{
    if happenings.len() == 0 {
        (monitor, seq![])
    } else {
        let (before, deeds) = after_all(monitor, happenings.drop_last());
        let (next, more) = before.after(happenings.last());
        (next, deeds + more)
    }
}

/// Whether `happenings` can happen one after the other.
pub open spec fn all_possible(monitor: Monitor, happenings: Seq<Happening>) -> bool
    decreases happenings.len(),
{
    happenings.len() > 0 ==> all_possible(monitor, happenings.drop_last()) && after_all(
        monitor,
        happenings.drop_last(),
    ).0.possible(happenings.last())
}

/// Whether the end of the process is told in `deed`.
pub open spec fn tells_the_end(deed: Deed) -> bool {
    deed matches Deed::Send(event) && event is Exit
}

/// Whether `deed` tells anything.
pub open spec fn tells(deed: Deed) -> bool {
    deed is Send
}

/// The end of a process is told once, after which nothing is told of it; and it
/// is told as soon as the process ended, its outputs are read to their ends and
/// it cannot report any more.
pub proof fn law_the_end_comes_last(happenings: Seq<Happening>)
    requires
        all_possible(Monitor::started(), happenings),
    ensures
        ({
            let (monitor, deeds) = after_all(Monitor::started(), happenings);
            &&& monitor.told == monitor.silent()
            &&& monitor.told <==> exists|i: int| 0 <= i < deeds.len() && tells_the_end(#[trigger] deeds[i])
            &&& forall|i: int, j: int|
                0 <= i < j < deeds.len() && tells_the_end(#[trigger] deeds[i]) ==> !tells(
                    #[trigger] deeds[j],
                )
        }),
    decreases happenings.len(),
{
    let (monitor, deeds) = after_all(Monitor::started(), happenings);
    if happenings.len() > 0 {
        let first = happenings.drop_last();
        law_the_end_comes_last(first);
        let (before, done) = after_all(Monitor::started(), first);
        let happening = happenings.last();
        let more = before.after(happening).1;
        assert(deeds == done + more);
        assert forall|i: int, j: int|
            0 <= i < j < deeds.len() && tells_the_end(#[trigger] deeds[i]) implies !tells(
            #[trigger] deeds[j],
        ) by {
            if i < done.len() {
                assert(done[i] == deeds[i]);
                if j < done.len() {
                    assert(done[j] == deeds[j]);
                } else {
                    assert(more[j - done.len()] == deeds[j]);
                }
            } else {
                assert(more[i - done.len()] == deeds[i]);
                assert(more[j - done.len()] == deeds[j]);
            }
        }
        if before.told {
            let i = choose|i: int| 0 <= i < done.len() && tells_the_end(#[trigger] done[i]);
            assert(deeds[i] == done[i]);
        } else if monitor.told {
            assert(deeds.last() == more.last());
            assert(tells_the_end(deeds[deeds.len() - 1]));
        } else {
            assert forall|i: int| 0 <= i < deeds.len() implies !tells_the_end(#[trigger] deeds[i]) by {
                if i < done.len() {
                    assert(done[i] == deeds[i]);
                } else {
                    assert(more[i - done.len()] == deeds[i]);
                }
            }
        }
    }
}

/// What was read and reported of the output on `fd`, joined.
pub open spec fn read_from(happenings: Seq<Happening>, fd: i32) -> Seq<u8>
    decreases happenings.len(),
{
    if happenings.len() == 0 {
        seq![]
    } else {
        read_from(happenings.drop_last(), fd) + match happenings.last() {
            Happening::Stdout(bytes) if fd == STDOUT => bytes@,
            Happening::Stderr(bytes) if fd == STDERR => bytes@,
            Happening::Report(ProcessOutputEvent::Output(of, bytes)) if fd == of => bytes@,
            _ => seq![],
        }
    }
}

/// What was told of the output on `fd`, joined.
pub open spec fn told_of(deeds: Seq<Deed>, fd: i32) -> Seq<u8>
    decreases deeds.len(),
{
    if deeds.len() == 0 {
        seq![]
    } else {
        told_of(deeds.drop_last(), fd) + match deeds.last() {
            Deed::Send(ProcessOutputEvent::Output(of, bytes)) if fd == of => bytes@,
            _ => seq![],
        }
    }
}

proof fn lemma_told_of_more(deeds: Seq<Deed>, more: Seq<Deed>, fd: i32)
    ensures
        told_of(deeds + more, fd) == told_of(deeds, fd) + told_of(more, fd),
    decreases more.len(),
{
    if more.len() == 0 {
        assert(deeds + more =~= deeds);
    } else {
        lemma_told_of_more(deeds, more.drop_last(), fd);
        assert((deeds + more).drop_last() =~= deeds + more.drop_last());
        assert((deeds + more).last() == more.last());
    }
}

/// All that a process writes is told, in the order in which it was read.
pub proof fn law_output_is_passed_on(monitor: Monitor, happenings: Seq<Happening>, fd: i32)
    ensures
        told_of(after_all(monitor, happenings).1, fd) == read_from(happenings, fd),
    decreases happenings.len(),
{
    if happenings.len() > 0 {
        law_output_is_passed_on(monitor, happenings.drop_last(), fd);
        let (before, deeds) = after_all(monitor, happenings.drop_last());
        let (next, noted) = before.noted(happenings.last());
        let more = before.after(happenings.last()).1;
        lemma_told_of_more(deeds, more, fd);
        let piece = match happenings.last() {
            Happening::Stdout(bytes) if fd == STDOUT => bytes@,
            Happening::Stderr(bytes) if fd == STDERR => bytes@,
            Happening::Report(ProcessOutputEvent::Output(of, bytes)) if fd == of => bytes@,
            _ => seq![],
        };
        if noted.len() > 0 {
            assert(noted.drop_last() =~= seq![]);
            assert(told_of(noted.drop_last(), fd) =~= seq![]);
        }
        assert(told_of(noted, fd) =~= piece);
        if more.len() > noted.len() {
            assert(more.drop_last() =~= noted);
        }
        assert(told_of(more, fd) =~= piece);
    }
}

/// What the process was told to read, joined.
pub open spec fn given_to(happenings: Seq<Happening>) -> Seq<u8>
    decreases happenings.len(),
{
    if happenings.len() == 0 {
        seq![]
    } else {
        given_to(happenings.drop_last()) + match happenings.last() {
            Happening::Told(ProcessInputEvent::Input(_, bytes)) => bytes@,
            _ => seq![],
        }
    }
}

/// What was written to the input of the process, joined.
pub open spec fn written_to(deeds: Seq<Deed>) -> Seq<u8>
    decreases deeds.len(),
{
    if deeds.len() == 0 {
        seq![]
    } else {
        written_to(deeds.drop_last()) + match deeds.last() {
            Deed::Write(bytes) => bytes@,
            _ => seq![],
        }
    }
}

proof fn lemma_written_more(deeds: Seq<Deed>, more: Seq<Deed>)
    ensures
        written_to(deeds + more) == written_to(deeds) + written_to(more),
    decreases more.len(),
{
    if more.len() == 0 {
        assert(deeds + more =~= deeds);
        assert(written_to(deeds) + written_to(more) =~= written_to(deeds));
    } else {
        lemma_written_more(deeds, more.drop_last());
        assert((deeds + more).drop_last() =~= deeds + more.drop_last());
        assert((deeds + more).last() == more.last());
        assert(written_to(deeds + more) =~= written_to(deeds) + written_to(more));
    }
}

/// As long as the process takes its input, all that it was told to read is written
/// to it, in order.
pub proof fn law_input_reaches_the_process(happenings: Seq<Happening>)
    requires
        all_possible(Monitor::started(), happenings),
        forall|i: int| 0 <= i < happenings.len() ==> !(#[trigger] happenings[i] is WriteFailed),
    ensures
        written_to(after_all(Monitor::started(), happenings).1) == given_to(happenings),
        after_all(Monitor::started(), happenings).0.input != Input::Deaf,
    decreases happenings.len(),
{
    if happenings.len() > 0 {
        let first = happenings.drop_last();
        assert forall|i: int| 0 <= i < first.len() implies !(#[trigger] first[i] is WriteFailed) by {
            assert(first[i] == happenings[i]);
        }
        law_input_reaches_the_process(first);
        let (before, deeds) = after_all(Monitor::started(), first);
        let happening = happenings.last();
        assert(happening == happenings[happenings.len() - 1]);
        let more = before.after(happening).1;
        lemma_written_more(deeds, more);
        lemma_step_writes(before, happening);
        assert(written_to(deeds + more) =~= given_to(happenings));
    }
}

proof fn lemma_step_writes(before: Monitor, happening: Happening)
    requires
        before.input != Input::Deaf,
    ensures
        written_to(before.after(happening).1) == (match happening {
            Happening::Told(ProcessInputEvent::Input(_, bytes)) => bytes@,
            _ => seq![],
        }),
{
    let noted = before.noted(happening).1;
    let more = before.after(happening).1;
    if noted.len() > 0 {
        assert(noted.drop_last() =~= seq![]);
        assert(written_to(noted.drop_last()) =~= seq![]);
    }
    assert(written_to(noted) =~= match happening {
        Happening::Told(ProcessInputEvent::Input(_, bytes)) => bytes@,
        _ => seq![],
    });
    if more.len() > noted.len() {
        assert(more.drop_last() =~= noted);
        assert(written_to(more) =~= written_to(noted));
    }
}

/// A process that was told to end is killed, one that was not is not, and one whose
/// input ended has it closed.
pub proof fn law_orders_are_carried_out(monitor: Monitor, happening: Happening)
    requires
        monitor.possible(happening),
    ensures
        ({
            let deeds = monitor.after(happening).1;
            &&& (exists|i: int| 0 <= i < deeds.len() && #[trigger] deeds[i] is Kill)
                <==> (happening matches Happening::Told(told) && told is Kill)
            &&& happening matches Happening::Told(ProcessInputEvent::Input(_, bytes)) ==> (
            bytes@.len() == 0 && monitor.input == Input::Open ==> deeds.len() > 0
                && deeds[0] is CloseInput && monitor.after(happening).0.input == Input::Ended)
            &&& happening is WriteFailed ==> deeds.len() > 0 && deeds[0] is CloseInput
                && monitor.after(happening).0.input == Input::Deaf
        }),
{
    let deeds = monitor.after(happening).1;
    if happening matches Happening::Told(told) && told is Kill {
        assert(deeds[0] is Kill);
    }
}

/// What a process reports is told as it was reported; and at the end exactly that
/// status is told with which the process ended.
pub proof fn law_reports_are_passed_on(monitor: Monitor, happening: Happening)
    requires
        monitor.possible(happening),
    ensures
        ({
            let (next, deeds) = monitor.after(happening);
            &&& happening matches Happening::Report(event) ==> deeds.len() > 0 && deeds[0]
                == Deed::Send(event)
            &&& forall|i: int|
                0 <= i < deeds.len() ==> (#[trigger] deeds[i] matches Deed::Send(
                    ProcessOutputEvent::Exit(status),
                ) ==> next.ended == Some(status) || happening is Report)
            &&& happening matches Happening::Ended(status) ==> next.ended == Some(status)
            &&& !(happening is Ended) ==> next.ended == monitor.ended
            &&& happening matches Happening::Stdout(bytes) ==> next.stdout == (bytes@.len() > 0)
                && next.stderr == monitor.stderr && next.reports == monitor.reports
            &&& happening matches Happening::Stderr(bytes) ==> next.stderr == (bytes@.len() > 0)
                && next.stdout == monitor.stdout && next.reports == monitor.reports
            &&& happening is NoMoreReports ==> !next.reports && next.stdout == monitor.stdout
                && next.stderr == monitor.stderr
        }),
{
}

} // verus!
