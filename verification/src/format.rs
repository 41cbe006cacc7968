//! The output of the processes of a program, as a person reads it.

use crate::console::{
    all_written, bytes_for, bytes_written, effects, heading, indented, last_fd,
    law_flushes_keep_bytes, law_notes_are_seen, law_output_is_preserved, law_output_is_seen,
    lemma_bytes_for_concat, noted, passed_on, seen, unfinished, with_indents, Console, Effect,
    Output, Piece, STDERR, STDOUT,
};
use crate::event::DeployOutputEvent;
use crate::exit::{law_status_texts_differ, status_text, ExitStatus};
use crate::hex::{hex_digit, hex_text};
use crate::pid::{key_bytes, Pid, SHOWN};
use crate::style::{bright, is_bright, show_as, shown_as, StyleSupport};
use vstd::prelude::*;
use vstd::utf8::encode_utf8;

verus! {

/// Draw number `index` of `rand::rngs::SmallRng` with the given seed, as amounts
/// of red, green and blue, on a machine whose pointers have `width` bits. The
/// crate takes one generator where pointers have 64 bits and another elsewhere.
pub uninterp spec fn small_rng_draw(width: u32, seed: Seq<u8>, index: nat) -> (u8, u8, u8);

/// Draws from `rand::rngs::SmallRng` with `rand::Rng::sample_iter`. What comes
/// depends on the seed, on how many draws went before, and on the width of the
/// machine's pointers, by which the crate chooses the generator.
#[verifier::external_body]
fn small_rng_rgb(seed: [u8; 16], index: usize) -> (r: (u8, u8, u8))
    ensures
        r == small_rng_draw(usize::BITS, seed@, index as nat),
{
    let mut rng: rand::rngs::SmallRng = rand::SeedableRng::from_seed(seed);
    rand::Rng::sample_iter(&mut rng, &rand::distributions::Standard).nth(index).unwrap()
}

/// The seed that a process's shown characters give, filled up with zeros.
pub open spec fn seed(pid: Pid) -> Seq<u8> {
    Seq::new(
        16,
        |i: int|
            if i < SHOWN {
                pid.shown()[i] as u8
            } else {
                0
            },
    )
}

/// The seed for the colours of `pid`.
pub fn colour_seed(pid: &Pid) -> (r: [u8; 16])
    ensures
        r@ == seed(*pid),
{
    let shown = pid.format();
    let mut r: [u8; 16] = [0;16];
    for i in 0..SHOWN
        invariant
            shown@ == pid.shown(),
            shown.len() == SHOWN,
            forall|j: int| 0 <= j < i ==> r@[j] == pid.shown()[j] as u8,
            forall|j: int| i <= j < 16 ==> r@[j] == 0,
    {
        proof {
            let b = key_bytes(pid.key)[i as int / 2] as int;
            assert(pid.shown()[i as int] == hex_text(key_bytes(pid.key))[i as int]);
            assert(pid.shown()[i as int] == hex_digit(b / 16) || pid.shown()[i as int]
                == hex_digit(b % 16));
        }
        r[i] = shown[i] as u8;
    }
    assert(r@ =~= seed(*pid));
    r
}

/// The first bright draw from number `index` on, out of `tries`.
pub open spec fn first_bright(seed: Seq<u8>, index: nat, tries: nat) -> Option<(u8, u8, u8)>
    decreases tries,
{
    let rgb = small_rng_draw(usize::BITS, seed, index);
    if tries == 0 {
        None
    } else if is_bright(rgb) {
        Some(rgb)
    } else {
        first_bright(seed, index + 1, (tries - 1) as nat)
    }
}

/// The colour of `pid`: the first draw that is bright enough to be read.
pub open spec fn colour_of(pid: Pid) -> Option<(u8, u8, u8)> {
    first_bright(seed(pid), 0, usize::MAX as nat)
}

/// A colour for `pid`: the first draw that is bright enough to be read; `None` if
/// none is among all draws that can be numbered.
pub fn colour(pid: &Pid) -> (r: Option<(u8, u8, u8)>)
    ensures
        r == colour_of(*pid),
        r matches Some(rgb) ==> is_bright(rgb),
{
    let seed = colour_seed(pid);
    for i in 0..usize::MAX
        invariant
            seed@ == self::seed(*pid),
            colour_of(*pid) == first_bright(seed@, i as nat, (usize::MAX - i) as nat),
    {
        let rgb = small_rng_rgb(seed, i);
        if bright(rgb) {
            return Some(rgb);
        }
    }
    None
}

/// Whether `name` shows `pid`: its shown characters in its colour.
pub open spec fn names(name: Seq<char>, pid: Pid, bold: bool, support: StyleSupport) -> bool {
    name == shown_as(pid.shown(), colour_of(pid), bold, support)
}

/// How `pid` is shown: its shown characters in a colour of its own.
pub fn pretty_pid(pid: &Pid, bold: bool, style_support: StyleSupport) -> (r: String)
    requires
        style_support != StyleSupport::FourBit,
    ensures
        names(r@, *pid, bold, style_support),
        style_support == StyleSupport::Plain ==> r@ == pid.shown(),
{
    let name = pid.to_string();
    let rgb = colour(pid);
    show_as(name.as_str(), rgb, bold, style_support)
}

/// The process that an event is about.
pub open spec fn subject(event: DeployOutputEvent) -> Pid {
    match event {
        DeployOutputEvent::Spawn(pid, _) => pid,
        DeployOutputEvent::Output(pid, _, _) => pid,
        DeployOutputEvent::Exit(pid, _) => pid,
    }
}

/// The note that `pid` has started a process that is shown as `name`.
pub open spec fn spawned_text(support: StyleSupport, name: Seq<char>) -> Seq<char> {
    support.plain().bolder().paints("spawned:"@) + " "@ + name
}

/// The note that a process has ended.
pub open spec fn exited_text(support: StyleSupport, status: ExitStatus) -> Seq<char> {
    if status == ExitStatus::Success {
        support.plain().bolder().paints("exited"@)
    } else {
        support.plain().bolder().paints("exited:"@) + " "@ + status_text(status)
    }
}

/// Whether an event shows anything of its process.
pub open spec fn shows(event: DeployOutputEvent) -> bool {
    match event {
        DeployOutputEvent::Output(_, fd, bytes) => bytes@.len() > 0 && (fd == STDOUT || fd
            == STDERR),
        _ => true,
    }
}

/// What an event writes. `name` is how its process is shown, and `new_name` how
/// a process that it has started is.
pub open spec fn formatted(
    nl: Option<i32>,
    current: Pid,
    support: StyleSupport,
    event: DeployOutputEvent,
    name: Seq<char>,
    new_name: Seq<char>,
) -> Seq<Piece> {
    let head = if subject(event) != current && shows(event) {
        Some(encode_utf8(name))
    } else {
        None
    };
    match event {
        DeployOutputEvent::Spawn(_, _) => noted(
            nl,
            head,
            encode_utf8(spawned_text(support, new_name)),
        ),
        DeployOutputEvent::Output(_, fd, bytes) => passed_on(nl, head, fd, bytes@),
        DeployOutputEvent::Exit(_, status) => noted(
            nl,
            head,
            encode_utf8(exited_text(support, status)),
        ),
    }
}

/// The descriptor whose last line an event leaves unfinished.
pub open spec fn left_unfinished(nl: Option<i32>, event: DeployOutputEvent) -> Option<i32> {
    match event {
        DeployOutputEvent::Output(_, fd, bytes) => unfinished(nl, fd, bytes@),
        _ => None,
    }
}

/// Shows the events of a program's processes on a terminal.
#[derive(Debug)]
pub struct Formatter {
    pub console: Console,
    /// The process that was shown last.
    pub pid: Pid,
    pub style_support: StyleSupport,
}

/// What the events of one program write after one another.
impl Formatter {
    /// Shows events, the first of which are of process `pid`. Also gives what
    /// is written to start with: the name of the process.
    pub fn new(pid: Pid, style_support: StyleSupport) -> (r: (Formatter, Vec<Output>))
        requires
            style_support != StyleSupport::FourBit,
        ensures
            r.0.console == (Console { fd: STDERR, nl: None }),
            r.0.pid == pid,
            r.0.style_support == style_support,
            exists|name: Seq<char>|
                names(name, pid, true, style_support) && effects(r.1@) == seq![
                    Effect::Write(#[trigger] heading(encode_utf8(name))[0]),
                ],
    {
        let name = pretty_pid(&pid, true, style_support);
        let mut line = name.as_str().as_bytes_vec();
        line.push(0x3a);
        line.push(0x0a);
        let mut out: Vec<Output> = Vec::new();
        assert(line@ =~= encode_utf8(name@) + seq![0x3au8, 0x0au8]);
        out.push(Output::Write(STDERR, line));
        assert(effects(out@) =~= seq![Effect::Write(heading(encode_utf8(name@))[0])]);
        (Formatter { console: Console::new(), pid, style_support }, out)
    }

    /// Shows `event`.
    pub fn write(&mut self, event: &DeployOutputEvent) -> (out: Vec<Output>)
        requires
            old(self).style_support != StyleSupport::FourBit,
            *event matches DeployOutputEvent::Spawn(pid, new_pid) ==> pid != new_pid,
        ensures
            final(self).style_support == old(self).style_support,
            final(self).pid == (if shows(*event) {
                subject(*event)
            } else {
                old(self).pid
            }),
            final(self).console.nl == left_unfinished(old(self).console.nl, *event),
            exists|name: Seq<char>, new_name: Seq<char>|
                {
                    let pieces = #[trigger] formatted(
                        old(self).console.nl,
                        old(self).pid,
                        old(self).style_support,
                        *event,
                        name,
                        new_name,
                    );
                    &&& names(name, subject(*event), true, old(self).style_support)
                    &&& *event matches DeployOutputEvent::Spawn(_, new_pid) ==> names(
                        new_name,
                        new_pid,
                        false,
                        old(self).style_support,
                    )
                    &&& effects(out@) == all_written(old(self).console.fd, pieces)
                    &&& final(self).console.fd == last_fd(old(self).console.fd, pieces)
                },
    {
        let (pid, new_pid) = match event {
            DeployOutputEvent::Spawn(pid, new_pid) => (*pid, *new_pid),
            DeployOutputEvent::Output(pid, _, _) => (*pid, *pid),
            DeployOutputEvent::Exit(pid, _) => (*pid, *pid),
        };
        let name = pretty_pid(&pid, true, self.style_support);
        let new_name = pretty_pid(&new_pid, false, self.style_support);
        self.write_named(event, name.as_str(), new_name.as_str())
    }

    /// Shows `event`, whose process is shown as `name` and which may have
    /// started a process that is shown as `new_name`.
    pub fn write_named(&mut self, event: &DeployOutputEvent, name: &str, new_name: &str) -> (out:
        Vec<Output>)
        requires
            *event matches DeployOutputEvent::Spawn(pid, new_pid) ==> pid != new_pid,
        ensures
            final(self).style_support == old(self).style_support,
            final(self).pid == (if shows(*event) {
                subject(*event)
            } else {
                old(self).pid
            }),
            final(self).console.nl == left_unfinished(old(self).console.nl, *event),
            final(self).console.fd == last_fd(
                old(self).console.fd,
                formatted(
                    old(self).console.nl,
                    old(self).pid,
                    old(self).style_support,
                    *event,
                    name@,
                    new_name@,
                ),
            ),
            effects(out@) == all_written(
                old(self).console.fd,
                formatted(
                    old(self).console.nl,
                    old(self).pid,
                    old(self).style_support,
                    *event,
                    name@,
                    new_name@,
                ),
            ),
    {
        let mut out: Vec<Output> = Vec::new();
        assert(effects(out@) =~= Seq::<Effect>::empty());
        let bold = self.style_support.style().bold();
        match event {
            DeployOutputEvent::Spawn(pid, _) => {
                let head = self.head(*pid, name);
                let text = bold.paint("spawned:").concat(" ").concat(new_name);
                self.console.note(&mut out, head, text.as_str().as_bytes_vec());
            },
            DeployOutputEvent::Output(pid, fd, bytes) => {
                let head = if bytes.len() > 0 && (*fd == STDOUT || *fd == STDERR) {
                    self.head(*pid, name)
                } else {
                    None
                };
                self.console.output(&mut out, head, *fd, bytes);
            },
            DeployOutputEvent::Exit(pid, status) => {
                let head = self.head(*pid, name);
                let text = if status.success() {
                    bold.paint("exited")
                } else {
                    bold.paint("exited:").concat(" ").concat(status.to_text().as_str())
                };
                self.console.note(&mut out, head, text.as_str().as_bytes_vec());
            },
        }
        out
    }

    /// The name to show before anything of `pid` is, and that it is shown now.
    fn head(&mut self, pid: Pid, name: &str) -> (r: Option<Vec<u8>>)
        ensures
            final(self).pid == pid,
            final(self).console == old(self).console,
            final(self).style_support == old(self).style_support,
            match r {
                Some(bytes) => pid != old(self).pid && bytes@ == encode_utf8(name@),
                None => pid == old(self).pid,
            },
    {
        if pid != self.pid {
            self.pid = pid;
            Some(name.as_bytes_vec())
        } else {
            None
        }
    }
}

proof fn lemma_stderr_only(pieces: Seq<Piece>)
    requires
        forall|i: int| 0 <= i < pieces.len() ==> (#[trigger] pieces[i]).fd == STDERR,
    ensures
        bytes_for(pieces, STDOUT) == Seq::<u8>::empty(),
    decreases pieces.len(),
{
    if pieces.len() > 0 {
        assert(pieces[pieces.len() - 1].fd == STDERR);
        assert forall|i: int| 0 <= i < pieces.drop_last().len() implies (
        #[trigger] pieces.drop_last()[i]).fd == STDERR by {
            assert(pieces.drop_last()[i] == pieces[i]);
        }
        lemma_stderr_only(pieces.drop_last());
    }
}

/// What a program's processes write to their standard outputs is all that
/// reaches standard output, byte for byte and in the order of the events.
pub proof fn law_stdout_carries_only_output(
    last: i32,
    nl: Option<i32>,
    current: Pid,
    support: StyleSupport,
    event: DeployOutputEvent,
    name: Seq<char>,
    new_name: Seq<char>,
)
    ensures
        bytes_written(
            all_written(last, formatted(nl, current, support, event, name, new_name)),
            STDOUT,
        ) == (match event {
            DeployOutputEvent::Output(_, fd, bytes) if fd == STDOUT => bytes@,
            _ => Seq::empty(),
        }),
{
    let pieces = formatted(nl, current, support, event, name, new_name);
    law_flushes_keep_bytes(last, pieces, STDOUT);
    match event {
        DeployOutputEvent::Output(_, fd, bytes) => {
            if bytes@.len() == 0 {
            } else if fd != STDOUT && fd != STDERR {
                assert(pieces.drop_last() =~= Seq::<Piece>::empty());
                assert(bytes_for(pieces, STDOUT) == bytes_for(pieces.drop_last(), STDOUT));
            } else {
                let body = indented(fd, bytes@, true);
                let before = pieces.take(pieces.len() - body.len());
                assert(pieces =~= before + body);
                lemma_stderr_only(before);
                lemma_bytes_for_concat(before, body, STDOUT);
                if fd == STDOUT {
                    law_output_is_preserved(bytes@, true);
                    assert(bytes_for(pieces, STDOUT) =~= bytes@);
                } else {
                    lemma_indented_fds(fd, bytes@, true);
                    lemma_stderr_only(body);
                }
            }
        },
        _ => {
            lemma_stderr_only(pieces);
        },
    }
}

proof fn lemma_indented_fds(fd: i32, bytes: Seq<u8>, first: bool)
    ensures
        forall|i: int|
            0 <= i < indented(fd, bytes, first).len() ==> (#[trigger] indented(fd, bytes, first)[i]).fd
                == fd || indented(fd, bytes, first)[i].fd == STDERR,
    decreases bytes.len(),
{
    crate::console::lemma_line_end(bytes);
    let end = crate::console::line_end(bytes);
    let all = indented(fd, bytes, first);
    if end + 1 < bytes.len() {
        let rest = indented(fd, bytes.skip(end + 1), false);
        lemma_indented_fds(fd, bytes.skip(end + 1), false);
        assert forall|i: int| 0 <= i < all.len() implies (#[trigger] all[i]).fd == fd || all[i].fd
            == STDERR by {
            let start = all.len() - rest.len();
            if i >= start {
                assert(all[i] == rest[i - start]);
            }
        }
    }
}

pub proof fn lemma_encode_concat(a: Seq<char>, b: Seq<char>)
    ensures
        encode_utf8(a + b) == encode_utf8(a) + encode_utf8(b),
    decreases a.len(),
{
    if a.len() == 0 {
        assert(a + b =~= b);
        assert(encode_utf8(a) =~= Seq::<u8>::empty());
        assert(encode_utf8(a) + encode_utf8(b) =~= encode_utf8(b));
    } else {
        let first = (a + b)[0];
        assert((a + b).drop_first() =~= a.drop_first() + b);
        lemma_encode_concat(a.drop_first(), b);
        assert(encode_utf8(a + b) =~= encode_utf8(a) + encode_utf8(b));
    }
}

proof fn lemma_encode_injective(a: Seq<char>, b: Seq<char>)
    requires
        encode_utf8(a) == encode_utf8(b),
    ensures
        a == b,
{
    vstd::utf8::encode_utf8_decode_utf8(a);
    vstd::utf8::encode_utf8_decode_utf8(b);
}

/// What is seen before the news of a process: the end of a line that was
/// unfinished, and the name of the process unless it was shown last.
pub open spec fn introduced(nl: Option<i32>, same: bool, name: Seq<char>) -> Seq<u8> {
    (if nl is Some {
        seq![10u8]
    } else {
        Seq::empty()
    }) + (if same {
        Seq::empty()
    } else {
        encode_utf8(name) + seq![58u8, 10]
    })
}

/// How a process ended can be read from what is seen: for different ends different
/// things are seen; of a failure the last line ends with what the status says, and
/// of a success it does not speak of an error at all.
pub proof fn law_the_end_can_be_read(
    last: i32,
    nl: Option<i32>,
    current: Pid,
    support: StyleSupport,
    pid: Pid,
    name: Seq<char>,
    new_name: Seq<char>,
    status: ExitStatus,
    other: ExitStatus,
)
    ensures
        ({
            let shown = |status: ExitStatus|
                seen(
                    all_written(
                        last,
                        formatted(
                            nl,
                            current,
                            support,
                            DeployOutputEvent::Exit(pid, status),
                            name,
                            new_name,
                        ),
                    ),
                );
            &&& status != other ==> shown(status) != shown(other)
            &&& status != ExitStatus::Success ==> exists|start: Seq<u8>|
                shown(status) == #[trigger] (start + encode_utf8(status_text(status))) + seq![10u8]
            &&& support == StyleSupport::Plain ==> shown(ExitStatus::Success) == introduced(
                nl,
                pid == current,
                name,
            ) + seq![32u8, 32, 32] + encode_utf8("exited"@) + seq![10u8]
            &&& support == StyleSupport::Plain && status != ExitStatus::Success ==> shown(status)
                == introduced(nl, pid == current, name) + seq![32u8, 32, 32] + encode_utf8(
                "exited: "@ + status_text(status),
            ) + seq![10u8]
        }),
{
    let head = if pid != current {
        Some(encode_utf8(name))
    } else {
        None
    };
    let shown = |status: ExitStatus|
        seen(
            all_written(
                last,
                formatted(
                    nl,
                    current,
                    support,
                    DeployOutputEvent::Exit(pid, status),
                    name,
                    new_name,
                ),
            ),
        );
    let start = introduced(nl, pid == current, name) + seq![32u8, 32, 32];
    assert forall|status: ExitStatus| #[trigger] shown(status) == start + encode_utf8(
        exited_text(support, status),
    ) + seq![10u8] by {
        law_notes_are_seen(last, nl, head, encode_utf8(exited_text(support, status)));
    }
    if status != other {
        if exited_text(support, status) == exited_text(support, other) {
            lemma_exited_texts_differ(support, status, other);
        }
        if shown(status) == shown(other) {
            let (a, b) = (
                encode_utf8(exited_text(support, status)),
                encode_utf8(exited_text(support, other)),
            );
            assert((start + a + seq![10u8]).subrange(start.len() as int, (start.len() + a.len()) as int)
                =~= a);
            assert((start + a + seq![10u8]).len() == start.len() + a.len() + 1);
            assert((start + b + seq![10u8]).len() == start.len() + b.len() + 1);
            assert((start + b + seq![10u8]).subrange(start.len() as int, (start.len() + b.len()) as int)
                =~= b);
            lemma_encode_injective(exited_text(support, status), exited_text(support, other));
        }
    }
    reveal_strlit("exited");
    reveal_strlit("exited:");
    reveal_strlit("exited: ");
    reveal_strlit(" ");
    if status != ExitStatus::Success {
        let words = support.plain().bolder().paints("exited:"@) + " "@;
        lemma_encode_concat(words, status_text(status));
        let begin = start + encode_utf8(words);
        assert(begin + encode_utf8(status_text(status)) =~= start + encode_utf8(
            exited_text(support, status),
        ));
        assert(shown(status) == (begin + encode_utf8(status_text(status))) + seq![10u8]);
        assert("exited:"@ + " "@ =~= "exited: "@);
    }
}

proof fn lemma_exited_texts_differ(support: StyleSupport, a: ExitStatus, b: ExitStatus)
    requires
        exited_text(support, a) == exited_text(support, b),
    ensures
        a == b,
{
    reveal_strlit("exited");
    reveal_strlit("exited:");
    reveal_strlit(" ");
    let done = support.plain().bolder().paints("exited"@);
    let words = support.plain().bolder().paints("exited:"@) + " "@;
    assert(words.len() == done.len() + 2);
    if a != ExitStatus::Success && b != ExitStatus::Success {
        assert((words + status_text(a)).skip(words.len() as int) =~= status_text(a));
        assert((words + status_text(b)).skip(words.len() as int) =~= status_text(b));
        law_status_texts_differ(a, b);
    }
}

/// Who starts whom can be read from what is seen: the name of the new process ends
/// the last line, below the name of the one that started it.
pub proof fn law_starts_can_be_read(
    last: i32,
    nl: Option<i32>,
    current: Pid,
    support: StyleSupport,
    pid: Pid,
    new_pid: Pid,
    name: Seq<char>,
    new_name: Seq<char>,
)
    ensures
        ({
            let shown = seen(
                all_written(
                    last,
                    formatted(
                        nl,
                        current,
                        support,
                        DeployOutputEvent::Spawn(pid, new_pid),
                        name,
                        new_name,
                    ),
                ),
            );
            &&& exists|words: Seq<char>|
                shown == introduced(nl, pid == current, name) + seq![32u8, 32, 32] + encode_utf8(
                    #[trigger] (words + new_name),
                ) + seq![10u8]
            &&& support == StyleSupport::Plain ==> shown == introduced(nl, pid == current, name)
                + seq![32u8, 32, 32] + encode_utf8("spawned: "@ + new_name) + seq![10u8]
        }),
{
    let head = if pid != current {
        Some(encode_utf8(name))
    } else {
        None
    };
    law_notes_are_seen(last, nl, head, encode_utf8(spawned_text(support, new_name)));
    reveal_strlit("spawned:");
    reveal_strlit("spawned: ");
    reveal_strlit(" ");
    let words = support.plain().bolder().paints("spawned:"@) + " "@;
    assert(words + new_name == spawned_text(support, new_name));
    assert("spawned:"@ + " "@ =~= "spawned: "@);
}

/// Whose output it is can be read from what is seen: it stands below the name of
/// the process that wrote it.
pub proof fn law_output_stands_below_its_process(
    last: i32,
    nl: Option<i32>,
    current: Pid,
    support: StyleSupport,
    pid: Pid,
    fd: i32,
    bytes: Vec<u8>,
    name: Seq<char>,
    new_name: Seq<char>,
)
    requires
        fd == 1 || fd == 2,
        bytes@.len() > 0,
    ensures
        seen(
            all_written(
                last,
                formatted(
                    nl,
                    current,
                    support,
                    DeployOutputEvent::Output(pid, fd, bytes),
                    name,
                    new_name,
                ),
            ),
        ) == (if nl == Some(fd) && pid == current {
            Seq::empty()
        } else {
            introduced(nl, pid == current, name) + seq![32u8, 32, 32]
        }) + with_indents(bytes@),
        left_unfinished(nl, DeployOutputEvent::Output(pid, fd, bytes)) == (if bytes@.last() == 10 {
            None
        } else {
            Some(fd)
        }),
{
    let head = if pid != current {
        Some(encode_utf8(name))
    } else {
        None
    };
    law_output_is_seen(last, nl, head, fd, bytes@);
}

/// The colour of an identifier is the first one drawn for it that is bright: none
/// before it is.
pub proof fn law_the_first_bright_colour_is_taken(seed: Seq<u8>, index: nat, tries: nat, n: nat)
    requires
        n < tries,
        is_bright(small_rng_draw(usize::BITS, seed, index + n)),
        forall|k: nat|
            index <= k < index + n ==> !is_bright(
                #[trigger] small_rng_draw(usize::BITS, seed, k),
            ),
    ensures
        first_bright(seed, index, tries) == Some(small_rng_draw(usize::BITS, seed, index + n)),
    decreases n,
{
    if n > 0 {
        assert(!is_bright(small_rng_draw(usize::BITS, seed, index)));
        law_the_first_bright_colour_is_taken(seed, index + 1, (tries - 1) as nat, (n - 1) as nat);
    }
}

/// The colour of an identifier is drawn for how it is shown, so that identifiers that
/// look alike have one colour, and from the first draw on.
pub proof fn law_colours_go_by_what_is_shown(pid: Pid, other: Pid)
    ensures
        pid.shown() == other.shown() ==> colour_of(pid) == colour_of(other),
        is_bright(small_rng_draw(usize::BITS, seed(pid), 0)) ==> colour_of(pid) == Some(
            small_rng_draw(usize::BITS, seed(pid), 0),
        ),
        seed(pid).len() == 16,
        forall|i: int| 0 <= i < 7 ==> #[trigger] seed(pid)[i] == pid.shown()[i] as u8,
        forall|i: int| 7 <= i < 16 ==> #[trigger] seed(pid)[i] == 0,
{
    if pid.shown() == other.shown() {
        assert(seed(pid) =~= seed(other));
    }
}

} // verus!
