//! The output of the processes of a program, as a person reads it.

use super::exit::{exited_as, Exited};
use super::pid::{pretty, pretty_pid, Pid};
use crate::console::{
    all_written, effects, heading, last_fd, law_notes_are_seen, law_output_is_seen, noted, passed_on,
    seen, unfinished, with_indents, Console, Effect, Output, Piece, STDERR, STDOUT,
};
use crate::format::introduced;
use crate::style::StyleSupport;
use vstd::prelude::*;
use vstd::utf8::encode_utf8;

verus! {

/// What is reported of the processes of a program. Output that is empty ends
/// the output on its descriptor.
#[derive(Clone, Debug)]
pub enum DeployOutputEvent {
    Spawn(Pid, Pid),
    Output(Pid, i32, Vec<u8>),
    Exit(Pid, Exited),
}

/// The process that an event is about.
pub open spec fn subject(event: DeployOutputEvent) -> Pid {
    match event {
        DeployOutputEvent::Spawn(pid, _) => pid,
        DeployOutputEvent::Output(pid, _, _) => pid,
        DeployOutputEvent::Exit(pid, _) => pid,
    }
}

/// Whether an event shows anything of its process.
pub open spec fn shows(event: DeployOutputEvent) -> bool {
    match event {
        DeployOutputEvent::Output(_, fd, bytes) => bytes@.len() > 0 && (fd == STDOUT || fd
            == STDERR),
        _ => true,
    }
}

/// What an event writes while `current` was shown last.
pub open spec fn formatted(
    nl: Option<i32>,
    current: Pid,
    support: StyleSupport,
    event: DeployOutputEvent,
) -> Seq<Piece> {
    let head = if subject(event).0@ != current.0@ && shows(event) {
        Some(encode_utf8(pretty(subject(event), true, support)))
    } else {
        None
    };
    match event {
        DeployOutputEvent::Spawn(_, new_pid) => noted(
            nl,
            head,
            encode_utf8(
                support.plain().bolder().paints("spawned:"@) + " "@ + pretty(
                    new_pid,
                    false,
                    support,
                ),
            ),
        ),
        DeployOutputEvent::Output(_, fd, bytes) => passed_on(nl, head, fd, bytes@),
        DeployOutputEvent::Exit(_, exited) => noted(
            nl,
            head,
            encode_utf8(
                support.plain().bolder().paints("exited:"@) + " "@ + exited_as(exited),
            ),
        ),
    }
}

/// Shows the events of a program's processes on a terminal.
#[derive(Debug)]
pub struct Formatter {
    pub console: Console,
    /// The process that was shown last.
    pub pid: Pid,
    pub style_support: StyleSupport,
}

impl Formatter {
    /// Shows events, the first of which are of process `pid`. Also gives what
    /// is written to start with: the name of the process.
    pub fn new(pid: Pid, style_support: StyleSupport) -> (r: (Formatter, Vec<Output>))
        requires
            style_support != StyleSupport::FourBit,
        ensures
            r.0.console == (Console { fd: STDERR, nl: None }),
            r.0.pid == pid,
            r.0.style_support == style_support,
            effects(r.1@) == seq![
                Effect::Write(heading(encode_utf8(pretty(pid, true, style_support)))[0]),
            ],
    {
        let name = pretty_pid(&pid, true, style_support);
        let mut line = name.as_str().as_bytes_vec();
        line.push(0x3a);
        line.push(0x0a);
        let mut out: Vec<Output> = Vec::new();
        assert(line@ =~= encode_utf8(name@) + seq![0x3au8, 0x0au8]);
        out.push(Output::Write(STDERR, line));
        assert(effects(out@) =~= seq![Effect::Write(heading(encode_utf8(name@))[0])]);
        (Formatter { console: Console::new(), pid, style_support }, out)
    }

    /// Shows `event`.
    pub fn write(&mut self, event: &DeployOutputEvent) -> (out: Vec<Output>)
        requires
            old(self).style_support != StyleSupport::FourBit,
            *event matches DeployOutputEvent::Spawn(pid, new_pid) ==> pid.0@ != new_pid.0@,
        ensures
            final(self).style_support == old(self).style_support,
            final(self).pid.0@ == (if shows(*event) {
                subject(*event).0@
            } else {
                old(self).pid.0@
            }),
            final(self).console.nl == (match *event {
                DeployOutputEvent::Output(_, fd, bytes) => unfinished(
                    old(self).console.nl,
                    fd,
                    bytes@,
                ),
                _ => None,
            }),
            final(self).console.fd == last_fd(
                old(self).console.fd,
                formatted(
                    old(self).console.nl,
                    old(self).pid,
                    old(self).style_support,
                    *event,
                ),
            ),
            effects(out@) == all_written(
                old(self).console.fd,
                formatted(
                    old(self).console.nl,
                    old(self).pid,
                    old(self).style_support,
                    *event,
                ),
            ),
    {
        let mut out: Vec<Output> = Vec::new();
        assert(effects(out@) =~= Seq::<Effect>::empty());
        let bold = self.style_support.style().bold();
        match event {
            DeployOutputEvent::Spawn(pid, new_pid) => {
                let head = self.head(*pid);
                let name = pretty_pid(new_pid, false, self.style_support);
                let text = bold.paint("spawned:").concat(" ").concat(name.as_str());
                self.console.note(&mut out, head, text.as_str().as_bytes_vec());
            },
            DeployOutputEvent::Output(pid, fd, bytes) => {
                let head = if bytes.len() > 0 && (*fd == STDOUT || *fd == STDERR) {
                    self.head(*pid)
                } else {
                    None
                };
                self.console.output(&mut out, head, *fd, bytes);
            },
            DeployOutputEvent::Exit(pid, exited) => {
                let head = self.head(*pid);
                let text = bold.paint("exited:").concat(" ").concat(exited.to_text().as_str());
                self.console.note(&mut out, head, text.as_str().as_bytes_vec());
            },
        }
        out
    }

    /// The name to show before anything of `pid` is, and that it is shown now.
    fn head(&mut self, pid: Pid) -> (r: Option<Vec<u8>>)
        requires
            old(self).style_support != StyleSupport::FourBit,
        ensures
            final(self).pid.0@ == pid.0@,
            final(self).console == old(self).console,
            final(self).style_support == old(self).style_support,
            match r {
                Some(bytes) => pid.0@ != old(self).pid.0@ && bytes@ == encode_utf8(
                    pretty(pid, true, old(self).style_support),
                ),
                None => pid.0@ == old(self).pid.0@,
            },
    {
        if !pid.same(&self.pid) {
            self.pid = pid;
            Some(pretty_pid(&pid, true, self.style_support).as_str().as_bytes_vec())
        } else {
            None
        }
    }
}

/// What a person reads of an event on a terminal without styles: a start and an
/// end on a line of their own, and output as it was written, each below the name of
/// its process.
pub proof fn law_events_can_be_read(last: i32, nl: Option<i32>, current: Pid, event: DeployOutputEvent)
    ensures
        ({
            let shown = seen(
                all_written(last, formatted(nl, current, StyleSupport::Plain, event)),
            );
            let same = subject(event).0@ == current.0@;
            let start = introduced(nl, same, subject(event).shown()) + seq![32u8, 32, 32];
            match event {
                DeployOutputEvent::Spawn(_, new_pid) => shown == start + encode_utf8(
                    "spawned: "@ + new_pid.shown(),
                ) + seq![10u8],
                DeployOutputEvent::Exit(_, exited) => shown == start + encode_utf8(
                    "exited: "@ + exited_as(exited),
                ) + seq![10u8],
                DeployOutputEvent::Output(_, fd, bytes) => (fd == 1 || fd == 2) && bytes@.len() > 0
                    ==> shown == (if nl == Some(fd) && same {
                    Seq::empty()
                } else {
                    start
                }) + with_indents(bytes@),
            }
        }),
{
    let head = if subject(event).0@ != current.0@ && shows(event) {
        Some(encode_utf8(pretty(subject(event), true, StyleSupport::Plain)))
    } else {
        None
    };
    reveal_strlit("spawned:");
    reveal_strlit("spawned: ");
    reveal_strlit("exited:");
    reveal_strlit("exited: ");
    reveal_strlit(" ");
    assert("spawned:"@ + " "@ =~= "spawned: "@);
    assert("exited:"@ + " "@ =~= "exited: "@);
    match event {
        DeployOutputEvent::Spawn(_, new_pid) => {
            law_notes_are_seen(last, nl, head, encode_utf8("spawned: "@ + new_pid.shown()));
        },
        DeployOutputEvent::Exit(_, exited) => {
            law_notes_are_seen(last, nl, head, encode_utf8("exited: "@ + exited_as(exited)));
        },
        DeployOutputEvent::Output(_, fd, bytes) => {
            if (fd == 1 || fd == 2) && bytes@.len() > 0 {
                law_output_is_seen(last, nl, head, fd, bytes@);
            }
        },
    }
}

} // verus!
