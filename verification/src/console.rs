//! How the output of several processes shares one terminal.
//!
//! Output is indented below the name of the process that it comes from. What is
//! not part of the output itself (names, indents, and the line ends that close
//! an unfinished line) always goes to standard error, so that standard output
//! carries the processes' output and nothing else.

use vstd::prelude::*;

verus! {

pub const STDOUT: i32 = 1;

pub const STDERR: i32 = 2;

/// What is done to a descriptor.
#[derive(Clone, Debug)]
pub enum Output {
    /// What has been written to the descriptor so far has to reach it.
    Flush(i32),
    /// The bytes are written to the descriptor.
    Write(i32, Vec<u8>),
}

/// Bytes for a descriptor.
#[verifier::ext_equal]
pub struct Piece {
    pub fd: i32,
    pub bytes: Seq<u8>,
}

/// What is done to a descriptor, as a plain value.
#[verifier::ext_equal]
pub enum Effect {
    Flush(i32),
    Write(Piece),
}

impl View for Output {
    type V = Effect;

    open spec fn view(&self) -> Effect {
        match *self {
            Output::Flush(fd) => Effect::Flush(fd),
            Output::Write(fd, bytes) => Effect::Write(Piece { fd, bytes: bytes@ }),
        }
    }
}

/// Some effects, as plain values.
pub open spec fn effects(outputs: Seq<Output>) -> Seq<Effect> {
    Seq::new(outputs.len(), |i: int| outputs[i]@)
}

/// What writing to `fd` takes after a write to `last`: if that was another one
/// of standard output and standard error, it is flushed first.
pub open spec fn written(last: i32, piece: Piece) -> Seq<Effect> {
    if (last == STDOUT || last == STDERR) && piece.fd != last {
        seq![Effect::Flush(last), Effect::Write(piece)]
    } else {
        seq![Effect::Write(piece)]
    }
}

/// What writing some pieces in turn takes after a write to `last`.
pub open spec fn all_written(last: i32, pieces: Seq<Piece>) -> Seq<Effect>
    decreases pieces.len(),
{
    if pieces.len() == 0 {
        Seq::empty()
    } else {
        all_written(last, pieces.drop_last()) + written(
            last_fd(last, pieces.drop_last()),
            pieces.last(),
        )
    }
}

/// The descriptor that was written to last.
pub open spec fn last_fd(last: i32, pieces: Seq<Piece>) -> i32 {
    if pieces.len() == 0 {
        last
    } else {
        pieces.last().fd
    }
}

/// All bytes that `pieces` hold for `fd`.
pub open spec fn bytes_for(pieces: Seq<Piece>, fd: i32) -> Seq<u8>
    decreases pieces.len(),
{
    if pieces.len() == 0 {
        Seq::empty()
    } else if pieces.last().fd == fd {
        bytes_for(pieces.drop_last(), fd) + pieces.last().bytes
    } else {
        bytes_for(pieces.drop_last(), fd)
    }
}

/// All bytes that `effects` write to `fd`.
pub open spec fn bytes_written(effects: Seq<Effect>, fd: i32) -> Seq<u8>
    decreases effects.len(),
{
    if effects.len() == 0 {
        Seq::empty()
    } else {
        match effects.last() {
            Effect::Write(piece) if piece.fd == fd => bytes_written(effects.drop_last(), fd)
                + piece.bytes,
            _ => bytes_written(effects.drop_last(), fd),
        }
    }
}

pub open spec fn newline() -> Seq<u8> {
    seq![0x0a]
}

pub open spec fn indent() -> Seq<u8> {
    seq![0x20, 0x20, 0x20]
}

/// Where the first line of `bytes` ends: at its first line end, or at its end.
pub open spec fn line_end(bytes: Seq<u8>) -> int
    decreases bytes.len(),
{
    if bytes.len() == 0 || bytes[0] == 0x0a {
        0
    } else {
        1 + line_end(bytes.skip(1))
    }
}

/// The output `bytes` on `fd`, each line after the first behind an indent. Only
/// the first line is written where it is empty.
pub open spec fn indented(fd: i32, bytes: Seq<u8>, first: bool) -> Seq<Piece>
    decreases bytes.len(),
    via indented_decreases
{
    let end = line_end(bytes);
    let line = if first || end > 0 {
        seq![Piece { fd, bytes: bytes.take(end) }]
    } else {
        Seq::empty()
    };
    if end >= bytes.len() {
        line
    } else if end + 1 == bytes.len() {
        line + seq![Piece { fd, bytes: newline() }]
    } else {
        line + seq![Piece { fd, bytes: newline() }, Piece { fd: STDERR, bytes: indent() }]
            + indented(fd, bytes.skip(end + 1), false)
    }
}

#[via_fn]
proof fn indented_decreases(fd: i32, bytes: Seq<u8>, first: bool) {
    lemma_line_end(bytes);
}

pub proof fn lemma_line_end(bytes: Seq<u8>)
    ensures
        0 <= line_end(bytes) <= bytes.len(),
        line_end(bytes) < bytes.len() ==> bytes[line_end(bytes)] == 0x0a,
        forall|i: int| 0 <= i < line_end(bytes) ==> bytes[i] != 0x0a,
    decreases bytes.len(),
{
    if bytes.len() > 0 && bytes[0] != 0x0a {
        lemma_line_end(bytes.skip(1));
        let end = line_end(bytes.skip(1));
        assert(end < bytes.skip(1).len() ==> bytes.skip(1)[end] == bytes[end + 1]);
        assert forall|i: int| 0 <= i < line_end(bytes) implies bytes[i] != 0x0a by {
            if i > 0 {
                assert(bytes.skip(1)[i - 1] == bytes[i]);
            }
        }
    }
}

proof fn lemma_line_end_unique(bytes: Seq<u8>, end: int)
    requires
        0 <= end <= bytes.len(),
        end < bytes.len() ==> bytes[end] == 0x0a,
        forall|i: int| 0 <= i < end ==> bytes[i] != 0x0a,
    ensures
        line_end(bytes) == end,
{
    lemma_line_end(bytes);
    let other = line_end(bytes);
    if other < end {
        assert(bytes[other] != 0x0a);
    }
    if end < other {
        assert(bytes[end] != 0x0a);
    }
}

pub proof fn lemma_bytes_for_concat(a: Seq<Piece>, b: Seq<Piece>, fd: i32)
    ensures
        bytes_for(a + b, fd) == bytes_for(a, fd) + bytes_for(b, fd),
    decreases b.len(),
{
    if b.len() == 0 {
        assert(a + b =~= a);
    } else {
        assert((a + b).drop_last() =~= a + b.drop_last());
        lemma_bytes_for_concat(a, b.drop_last(), fd);
    }
}

proof fn lemma_bytes_for_one(piece: Piece, fd: i32)
    ensures
        bytes_for(seq![piece], fd) == (if piece.fd == fd {
            piece.bytes
        } else {
            Seq::empty()
        }),
{
    reveal_with_fuel(bytes_for, 2);
    assert(seq![piece].drop_last() =~= Seq::<Piece>::empty());
}

proof fn lemma_bytes_written_concat(a: Seq<Effect>, b: Seq<Effect>, fd: i32)
    ensures
        bytes_written(a + b, fd) == bytes_written(a, fd) + bytes_written(b, fd),
    decreases b.len(),
{
    if b.len() == 0 {
        assert(a + b =~= a);
    } else {
        assert((a + b).drop_last() =~= a + b.drop_last());
        lemma_bytes_written_concat(a, b.drop_last(), fd);
    }
}

/// Flushing adds nothing and loses nothing.
pub proof fn law_flushes_keep_bytes(last: i32, pieces: Seq<Piece>, fd: i32)
    ensures
        bytes_written(all_written(last, pieces), fd) == bytes_for(pieces, fd),
    decreases pieces.len(),
{
    if pieces.len() > 0 {
        law_flushes_keep_bytes(last, pieces.drop_last(), fd);
        let before = last_fd(last, pieces.drop_last());
        let w = written(before, pieces.last());
        lemma_bytes_written_concat(all_written(last, pieces.drop_last()), w, fd);
        reveal_with_fuel(bytes_written, 3);
        if w.len() == 2 {
            assert(w.drop_last() =~= seq![Effect::Flush(before)]);
            assert(w.drop_last().drop_last() =~= Seq::<Effect>::empty());
        } else {
            assert(w.drop_last() =~= Seq::<Effect>::empty());
        }
    }
}

/// What a process writes to standard output reaches standard output unchanged,
/// however it is cut into lines.
pub proof fn law_output_is_preserved(bytes: Seq<u8>, first: bool)
    ensures
        bytes_for(indented(STDOUT, bytes, first), STDOUT) == bytes,
    decreases bytes.len(),
{
    lemma_line_end(bytes);
    let end = line_end(bytes);
    let line = if first || end > 0 {
        seq![Piece { fd: STDOUT, bytes: bytes.take(end) }]
    } else {
        Seq::empty()
    };
    let nl = Piece { fd: STDOUT, bytes: newline() };
    let ind = Piece { fd: STDERR, bytes: indent() };
    lemma_bytes_for_one(Piece { fd: STDOUT, bytes: bytes.take(end) }, STDOUT);
    lemma_bytes_for_one(nl, STDOUT);
    lemma_bytes_for_one(ind, STDOUT);
    assert(bytes_for(line, STDOUT) =~= bytes.take(end));
    if end >= bytes.len() {
        assert(bytes.take(end) =~= bytes);
    } else if end + 1 == bytes.len() {
        lemma_bytes_for_concat(line, seq![nl], STDOUT);
        assert(bytes.take(end) + newline() =~= bytes);
    } else {
        let rest = bytes.skip(end + 1);
        law_output_is_preserved(rest, false);
        assert(seq![nl, ind] =~= seq![nl] + seq![ind]);
        lemma_bytes_for_concat(seq![nl], seq![ind], STDOUT);
        lemma_bytes_for_concat(line, seq![nl, ind], STDOUT);
        lemma_bytes_for_concat(line + seq![nl, ind], indented(STDOUT, rest, false), STDOUT);
        assert(bytes.take(end) + newline() + rest =~= bytes);
    }
}

/// The terminal as the processes share it: the descriptor written to last, and
/// the descriptor whose last line is unfinished, if there is one.
#[derive(Copy, Clone, Debug)]
pub struct Console {
    pub fd: i32,
    pub nl: Option<i32>,
}

/// A line end on standard error where a line is unfinished.
pub open spec fn closing(nl: Option<i32>) -> Seq<Piece> {
    if nl is Some {
        seq![Piece { fd: STDERR, bytes: newline() }]
    } else {
        Seq::empty()
    }
}

/// A name, a colon and a line end.
pub open spec fn heading(name: Seq<u8>) -> Seq<Piece> {
    seq![Piece { fd: STDERR, bytes: name + seq![0x3a, 0x0a] }]
}

/// An indent, a note and a line end.
pub open spec fn note(text: Seq<u8>) -> Seq<Piece> {
    seq![Piece { fd: STDERR, bytes: indent() + text + newline() }]
}

/// A note, below the name of its process where another process was shown last.
pub open spec fn noted(nl: Option<i32>, name: Option<Seq<u8>>, text: Seq<u8>) -> Seq<Piece> {
    closing(nl) + (match name {
        Some(name) => heading(name),
        None => Seq::empty(),
    }) + note(text)
}

/// Output on `fd`, below the name of its process where another process was
/// shown last. A line that is unfinished is gone on with if it is of the same
/// process and descriptor, and closed otherwise.
pub open spec fn passed_on(
    nl: Option<i32>,
    name: Option<Seq<u8>>,
    fd: i32,
    bytes: Seq<u8>,
) -> Seq<Piece> {
    if bytes.len() == 0 {
        Seq::empty()
    } else if fd != STDOUT && fd != STDERR {
        seq![Piece { fd, bytes }]
    } else {
        let goes_on = nl == Some(fd) && name is None;
        (if goes_on {
            Seq::empty()
        } else {
            closing(nl) + (match name {
                Some(name) => heading(name),
                None => Seq::empty(),
            }) + seq![Piece { fd: STDERR, bytes: indent() }]
        }) + indented(fd, bytes, true)
    }
}

/// The descriptor whose last line is unfinished after output on `fd`.
pub open spec fn unfinished(nl: Option<i32>, fd: i32, bytes: Seq<u8>) -> Option<i32> {
    if bytes.len() == 0 || (fd != STDOUT && fd != STDERR) {
        nl
    } else if bytes.last() == 0x0a {
        None
    } else {
        Some(fd)
    }
}

/// A name, if there is one, as its bytes.
pub open spec fn name_view(name: Option<Vec<u8>>) -> Option<Seq<u8>> {
    match name {
        Some(name) => Some(name@),
        None => None,
    }
}

proof fn lemma_all_written_push(last: i32, pieces: Seq<Piece>, piece: Piece)
    ensures
        all_written(last, pieces.push(piece)) == all_written(last, pieces) + written(
            last_fd(last, pieces),
            piece,
        ),
{
    assert(pieces.push(piece).drop_last() =~= pieces);
}

/// What has been put on a terminal since it was in state `from`, on top of
/// `before`.
spec fn so_far(
    from: i32,
    before: Seq<Effect>,
    pieces: Seq<Piece>,
    fd: i32,
    outputs: Seq<Output>,
) -> bool {
    &&& effects(outputs) == before + all_written(from, pieces)
    &&& fd == last_fd(from, pieces)
}

impl Console {
    /// A terminal on which nothing is unfinished, and on which standard error
    /// was written to last.
    pub fn new() -> (r: Console)
        ensures
            r == (Console { fd: STDERR, nl: None }),
    {
        Console { fd: STDERR, nl: None }
    }

    /// Writes `bytes` to `fd`.
    fn write(
        &mut self,
        out: &mut Vec<Output>,
        fd: i32,
        bytes: Vec<u8>,
        Ghost(from): Ghost<i32>,
        Ghost(before): Ghost<Seq<Effect>>,
        Ghost(pieces): Ghost<Seq<Piece>>,
    )
        requires
            so_far(from, before, pieces, old(self).fd, old(out)@),
        ensures
            final(self).nl == old(self).nl,
            so_far(
                from,
                before,
                pieces.push(Piece { fd, bytes: bytes@ }),
                final(self).fd,
                final(out)@,
            ),
    {
        let ghost last = self.fd;
        let ghost piece = Piece { fd, bytes: bytes@ };
        let flushes = (self.fd == STDOUT || self.fd == STDERR) && fd != self.fd;
        if flushes {
            out.push(Output::Flush(self.fd));
        }
        out.push(Output::Write(fd, bytes));
        self.fd = fd;
        proof {
            if flushes {
                assert(effects(out@) =~= effects(old(out)@) + seq![
                    Effect::Flush(last),
                    Effect::Write(piece),
                ]);
            } else {
                assert(effects(out@) =~= effects(old(out)@) + seq![Effect::Write(piece)]);
            }
            lemma_all_written_push(from, pieces, piece);
            assert(effects(out@) =~= before + all_written(from, pieces.push(piece)));
        }
    }

    /// Writes a name, a colon and a line end to standard error.
    fn head(
        &mut self,
        out: &mut Vec<Output>,
        name: Option<Vec<u8>>,
        Ghost(from): Ghost<i32>,
        Ghost(before): Ghost<Seq<Effect>>,
    ) -> (pieces: Ghost<Seq<Piece>>)
        requires
            so_far(from, before, Seq::empty(), old(self).fd, old(out)@),
        ensures
            final(self).nl is None,
            pieces@ == closing(old(self).nl) + (match name {
                Some(name) => heading(name@),
                None => Seq::empty(),
            }),
            so_far(from, before, pieces@, final(self).fd, final(out)@),
    {
        let ghost mut pieces: Seq<Piece> = Seq::empty();
        if self.nl.is_some() {
            self.write(out, STDERR, newline_bytes(), Ghost(from), Ghost(before), Ghost(pieces));
            proof {
                pieces = pieces.push(Piece { fd: STDERR, bytes: newline() });
            }
            self.nl = None;
        }
        if let Some(name) = name {
            let mut line = name;
            line.push(0x3a);
            line.push(0x0a);
            assert(line@ =~= name@ + seq![0x3au8, 0x0au8]);
            self.write(out, STDERR, line, Ghost(from), Ghost(before), Ghost(pieces));
            proof {
                pieces = pieces.push(Piece { fd: STDERR, bytes: name@ + seq![0x3au8, 0x0au8] });
            }
        }
        assert(pieces =~= closing(old(self).nl) + (match name {
            Some(name) => heading(name@),
            None => Seq::empty(),
        }));
        Ghost(pieces)
    }

    /// Shows a note, below the name of its process if that is given.
    pub fn note(&mut self, out: &mut Vec<Output>, name: Option<Vec<u8>>, text: Vec<u8>)
        ensures
            final(self).nl is None,
            final(self).fd == STDERR,
            effects(final(out)@) == effects(old(out)@) + all_written(
                old(self).fd,
                noted(
                    old(self).nl,
                    name_view(name),
                    text@,
                ),
            ),
    {
        let ghost from = self.fd;
        let ghost before = effects(out@);
        assert(before + all_written(from, Seq::empty()) =~= before);
        let Ghost(pieces) = self.head(out, name, Ghost(from), Ghost(before));
        let mut line: Vec<u8> = indent_bytes();
        let mut text = text;
        let ghost text_view = text@;
        line.append(&mut text);
        line.push(0x0a);
        assert(line@ =~= indent() + text_view + newline());
        self.write(out, STDERR, line, Ghost(from), Ghost(before), Ghost(pieces));
        assert(pieces.push(Piece { fd: STDERR, bytes: line@ }) =~= pieces + note(text_view));
    }

    /// Passes on output of a process, below its name if that is given.
    pub fn output(&mut self, out: &mut Vec<Output>, name: Option<Vec<u8>>, fd: i32, bytes: &Vec<u8>)
        ensures
            final(self).nl == unfinished(old(self).nl, fd, bytes@),
            ({
                let pieces = passed_on(
                    old(self).nl,
                    name_view(name),
                    fd,
                    bytes@,
                );
                &&& effects(final(out)@) == effects(old(out)@) + all_written(old(self).fd, pieces)
                &&& final(self).fd == last_fd(old(self).fd, pieces)
            }),
    {
        let ghost from = self.fd;
        let ghost before = effects(out@);
        assert(before + all_written(from, Seq::empty()) =~= before);
        if bytes.len() == 0 {
            return;
        }
        if fd != STDOUT && fd != STDERR {
            let all = copy_range(bytes, 0, bytes.len());
            assert(all@ =~= bytes@);
            self.write(out, fd, all, Ghost(from), Ghost(before), Ghost(Seq::empty()));
            assert(Seq::<Piece>::empty().push(Piece { fd, bytes: bytes@ }) =~= seq![
                Piece { fd, bytes: bytes@ },
            ]);
            return;
        }
        let goes_on = match (self.nl, &name) {
            (Some(nl), None) => nl == fd,
            _ => false,
        };
        let ghost nl = self.nl;
        let ghost mut pieces: Seq<Piece> = Seq::empty();
        let ghost shown = name_view(name);
        if !goes_on {
            let Ghost(head) = self.head(out, name, Ghost(from), Ghost(before));
            self.write(out, STDERR, indent_bytes(), Ghost(from), Ghost(before), Ghost(head));
            proof {
                pieces = head.push(Piece { fd: STDERR, bytes: indent() });
                assert(pieces =~= closing(nl) + (match shown {
                    Some(name) => heading(name),
                    None => Seq::empty(),
                }) + seq![Piece { fd: STDERR, bytes: indent() }]);
            }
        }
        let ghost head = pieces;
        let mut start: usize = 0;
        let mut first = true;
        assert(bytes@.skip(0) =~= bytes@);
        loop
            invariant_except_break
                start < bytes.len(),
                so_far(from, before, pieces, self.fd, out@),
                pieces + indented(fd, bytes@.skip(start as int), first) =~= head + indented(
                    fd,
                    bytes@,
                    true,
                ),
            ensures
                so_far(from, before, pieces, self.fd, out@),
                pieces == head + indented(fd, bytes@, true),
            decreases bytes.len() - start,
        {
            let ghost rest = bytes@.skip(start as int);
            let ghost at = pieces;
            let mut end: usize = start;
            while end < bytes.len() && bytes[end] != 0x0a
                invariant
                    start <= end <= bytes.len(),
                    forall|i: int| start <= i < end ==> bytes@[i] != 0x0a,
                decreases bytes.len() - end,
            {
                end = end + 1;
            }
            proof {
                lemma_line_end_unique(rest, end - start);
            }
            let ghost line = if first || end > start {
                seq![Piece { fd, bytes: rest.take(end - start) }]
            } else {
                Seq::empty()
            };
            if first || end > start {
                let part = copy_range(bytes, start, end);
                assert(part@ =~= rest.take(end - start));
                self.write(out, fd, part, Ghost(from), Ghost(before), Ghost(pieces));
                proof {
                    pieces = pieces.push(Piece { fd, bytes: rest.take(end - start) });
                }
            }
            assert(pieces =~= at + line);
            if end >= bytes.len() {
                break;
            }
            self.write(out, fd, newline_bytes(), Ghost(from), Ghost(before), Ghost(pieces));
            proof {
                pieces = pieces.push(Piece { fd, bytes: newline() });
            }
            if end + 1 == bytes.len() {
                assert(pieces =~= at + (line + seq![Piece { fd, bytes: newline() }]));
                break;
            }
            self.write(
                out,
                STDERR,
                indent_bytes(),
                Ghost(from),
                Ghost(before),
                Ghost(pieces),
            );
            proof {
                pieces = pieces.push(Piece { fd: STDERR, bytes: indent() });
                assert(rest.skip(end - start + 1) =~= bytes@.skip(end + 1));
                let more = indented(fd, bytes@.skip(end + 1), false);
                assert(pieces + more =~= at + (line + seq![
                    Piece { fd, bytes: newline() },
                    Piece { fd: STDERR, bytes: indent() },
                ] + more));
            }
            start = end + 1;
            first = false;
        }
        self.nl = if bytes[bytes.len() - 1] == 0x0a {
            None
        } else {
            Some(fd)
        };
    }
}

impl Default for Console {
    fn default() -> (r: Console)
        ensures
            r == (Console { fd: STDERR, nl: None }),
    {
        Console::new()
    }
}

fn newline_bytes() -> (r: Vec<u8>)
    ensures
        r@ == newline(),
{
    let r: Vec<u8> = vec![0x0a];
    assert(r@ =~= newline());
    r
}

fn indent_bytes() -> (r: Vec<u8>)
    ensures
        r@ == indent(),
{
    let r: Vec<u8> = vec![0x20, 0x20, 0x20];
    assert(r@ =~= indent());
    r
}

/// The bytes from `from` up to `to`.
fn copy_range(bytes: &Vec<u8>, from: usize, to: usize) -> (r: Vec<u8>)
    requires
        from <= to <= bytes.len(),
    ensures
        r@ == bytes@.subrange(from as int, to as int),
{
    let mut r: Vec<u8> = Vec::new();
    for i in from..to
        invariant
            from <= to <= bytes.len(),
            r@ =~= bytes@.subrange(from as int, i as int),
    {
        r.push(bytes[i]);
    }
    r
}

/// All bytes that some effects write, to whatever descriptor: what is seen on a
/// terminal.
pub open spec fn seen(effects: Seq<Effect>) -> Seq<u8>
    decreases effects.len(),
{
    if effects.len() == 0 {
        Seq::empty()
    } else {
        match effects.last() {
            Effect::Write(piece) => seen(effects.drop_last()) + piece.bytes,
            Effect::Flush(_) => seen(effects.drop_last()),
        }
    }
}

/// All bytes that some pieces hold.
spec fn held(pieces: Seq<Piece>) -> Seq<u8>
    decreases pieces.len(),
{
    if pieces.len() == 0 {
        Seq::empty()
    } else {
        held(pieces.drop_last()) + pieces.last().bytes
    }
}

/// `bytes` with three spaces behind each line end that something follows.
pub open spec fn with_indents(bytes: Seq<u8>) -> Seq<u8>
    decreases bytes.len(),
{
    if bytes.len() == 0 {
        Seq::empty()
    } else {
        let before = with_indents(bytes.drop_last());
        (if bytes.len() > 1 && bytes[bytes.len() - 2] == 10 {
            before + seq![32u8, 32, 32]
        } else {
            before
        }).push(bytes.last())
    }
}

proof fn lemma_held_concat(a: Seq<Piece>, b: Seq<Piece>)
    ensures
        held(a + b) == held(a) + held(b),
    decreases b.len(),
{
    if b.len() == 0 {
        assert(a + b =~= a);
        assert(held(a) + held(b) =~= held(a));
    } else {
        assert((a + b).drop_last() =~= a + b.drop_last());
        lemma_held_concat(a, b.drop_last());
        assert(held(a + b) =~= held(a) + held(b));
    }
}

proof fn lemma_held_one(piece: Piece)
    ensures
        held(seq![piece]) == piece.bytes,
{
    assert(seq![piece].drop_last() =~= Seq::<Piece>::empty());
    assert(held(Seq::<Piece>::empty()) + piece.bytes =~= piece.bytes);
}

proof fn lemma_seen(last: i32, pieces: Seq<Piece>)
    ensures
        seen(all_written(last, pieces)) == held(pieces),
    decreases pieces.len(),
{
    if pieces.len() > 0 {
        let first = pieces.drop_last();
        lemma_seen(last, first);
        let before = all_written(last, first);
        let piece = pieces.last();
        let more = written(last_fd(last, first), piece);
        let all = before + more;
        assert(all.last() == Effect::Write(piece));
        if more.len() == 2 {
            assert(all.drop_last() =~= before.push(more[0]));
            assert(before.push(more[0]).drop_last() =~= before);
            assert(seen(before.push(more[0])) == seen(before));
        } else {
            assert(all.drop_last() =~= before);
        }
    }
}

proof fn lemma_with_indents_join(x: Seq<u8>, y: Seq<u8>)
    requires
        x.len() > 0,
        y.len() > 0,
    ensures
        with_indents(x + y) == with_indents(x) + (if x.last() == 10 {
            seq![32u8, 32, 32]
        } else {
            Seq::empty()
        }) + with_indents(y),
    decreases y.len(),
{
    let all = x + y;
    assert(all.drop_last() =~= x + y.drop_last());
    if y.len() == 1 {
        assert(y.drop_last() =~= Seq::<u8>::empty());
        assert(x + y.drop_last() =~= x);
        assert(with_indents(y.drop_last()) =~= Seq::<u8>::empty());
        assert(with_indents(y) =~= y);
        assert(all[all.len() - 2] == x.last());
    } else {
        lemma_with_indents_join(x, y.drop_last());
        assert(all[all.len() - 2] == y[y.len() - 2]);
    }
    assert(with_indents(all) =~= with_indents(x) + (if x.last() == 10 {
        seq![32u8, 32, 32]
    } else {
        Seq::empty()
    }) + with_indents(y));
}

proof fn lemma_one_line(line: Seq<u8>)
    requires
        forall|i: int| 0 <= i < line.len() - 1 ==> line[i] != 10,
    ensures
        with_indents(line) == line,
    decreases line.len(),
{
    if line.len() > 0 {
        lemma_one_line(line.drop_last());
        assert(line.drop_last().push(line.last()) =~= line);
    }
}

proof fn lemma_held_indented(fd: i32, bytes: Seq<u8>, first: bool)
    ensures
        held(indented(fd, bytes, first)) == with_indents(bytes),
    decreases bytes.len(),
{
    lemma_line_end(bytes);
    let end = line_end(bytes);
    let line = if first || end > 0 {
        seq![Piece { fd, bytes: bytes.take(end) }]
    } else {
        Seq::empty()
    };
    let nl = Piece { fd, bytes: newline() };
    let ind = Piece { fd: STDERR, bytes: indent() };
    lemma_held_one(Piece { fd, bytes: bytes.take(end) });
    lemma_held_one(nl);
    lemma_held_one(ind);
    assert(held(line) =~= bytes.take(end));
    if end >= bytes.len() {
        assert(bytes.take(end) =~= bytes);
        lemma_one_line(bytes);
    } else if end + 1 == bytes.len() {
        lemma_held_concat(line, seq![nl]);
        assert(bytes.take(end) + newline() =~= bytes);
        lemma_one_line(bytes);
    } else {
        let rest = bytes.skip(end + 1);
        let start = bytes.take(end + 1);
        lemma_held_indented(fd, rest, false);
        assert(seq![nl, ind] =~= seq![nl] + seq![ind]);
        lemma_held_concat(seq![nl], seq![ind]);
        lemma_held_concat(line, seq![nl, ind]);
        lemma_held_concat(line + seq![nl, ind], indented(fd, rest, false));
        assert(start + rest =~= bytes);
        assert(bytes.take(end) + newline() =~= start);
        lemma_one_line(start);
        lemma_with_indents_join(start, rest);
        assert(held(indented(fd, bytes, first)) =~= with_indents(bytes));
    }
}

proof fn lemma_held_head(nl: Option<i32>, name: Option<Seq<u8>>)
    ensures
        held(
            closing(nl) + (match name {
                Some(name) => heading(name),
                None => Seq::empty(),
            }),
        ) == (if nl is Some {
            seq![10u8]
        } else {
            Seq::empty()
        }) + (match name {
            Some(name) => name + seq![58u8, 10],
            None => Seq::empty(),
        }),
{
    let head = match name {
        Some(name) => heading(name),
        None => Seq::empty(),
    };
    lemma_held_concat(closing(nl), head);
    lemma_held_one(Piece { fd: STDERR, bytes: newline() });
    if let Some(name) = name {
        lemma_held_one(Piece { fd: STDERR, bytes: name + seq![0x3a, 0x0a] });
    }
}

/// A note is seen on a line of its own behind three spaces, below the name of its
/// process if that is given; a line that is unfinished ends before it.
pub proof fn law_notes_are_seen(
    last: i32,
    nl: Option<i32>,
    name: Option<Seq<u8>>,
    text: Seq<u8>,
)
    ensures
        seen(all_written(last, noted(nl, name, text))) == (if nl is Some {
            seq![10u8]
        } else {
            Seq::empty()
        }) + (match name {
            Some(name) => name + seq![58u8, 10],
            None => Seq::empty(),
        }) + seq![32u8, 32, 32] + text + seq![10u8],
        bytes_written(all_written(last, noted(nl, name, text)), STDERR) == seen(
            all_written(last, noted(nl, name, text)),
        ),
{
    let pieces = noted(nl, name, text);
    let head = closing(nl) + (match name {
        Some(name) => heading(name),
        None => Seq::empty(),
    });
    lemma_seen(last, pieces);
    lemma_held_head(nl, name);
    lemma_held_concat(head, note(text));
    lemma_held_one(Piece { fd: STDERR, bytes: indent() + text + newline() });
    law_flushes_keep_bytes(last, pieces, STDERR);
    lemma_all_for(pieces, STDERR);
    assert(seen(all_written(last, pieces)) =~= held(head) + (seq![32u8, 32, 32] + text + seq![
        10u8,
    ]));
    assert(held(head) + (seq![32u8, 32, 32] + text + seq![10u8]) =~= held(head) + seq![32u8, 32, 32]
        + text + seq![10u8]);
}

proof fn lemma_all_for(pieces: Seq<Piece>, fd: i32)
    requires
        forall|i: int| 0 <= i < pieces.len() ==> (#[trigger] pieces[i]).fd == fd,
    ensures
        bytes_for(pieces, fd) == held(pieces),
    decreases pieces.len(),
{
    if pieces.len() > 0 {
        assert(pieces[pieces.len() - 1].fd == fd);
        assert forall|i: int| 0 <= i < pieces.drop_last().len() implies (
        #[trigger] pieces.drop_last()[i]).fd == fd by {
            assert(pieces.drop_last()[i] == pieces[i]);
        }
        lemma_all_for(pieces.drop_last(), fd);
    }
}

/// Output is seen as it was written, each line behind three spaces, below the name
/// of its process if that is given. It goes on where it stopped if nothing else
/// was seen since, and starts on a new line otherwise.
pub proof fn law_output_is_seen(
    last: i32,
    nl: Option<i32>,
    name: Option<Seq<u8>>,
    fd: i32,
    bytes: Seq<u8>,
)
    requires
        fd == 1 || fd == 2,
        bytes.len() > 0,
    ensures
        seen(all_written(last, passed_on(nl, name, fd, bytes))) == (if nl == Some(fd) && name is None {
            Seq::empty()
        } else {
            (if nl is Some {
                seq![10u8]
            } else {
                Seq::empty()
            }) + (match name {
                Some(name) => name + seq![58u8, 10],
                None => Seq::empty(),
            }) + seq![32u8, 32, 32]
        }) + with_indents(bytes),
        unfinished(nl, fd, bytes) == (if bytes.last() == 10 {
            None
        } else {
            Some(fd)
        }),
{
    let pieces = passed_on(nl, name, fd, bytes);
    let head = closing(nl) + (match name {
        Some(name) => heading(name),
        None => Seq::empty(),
    });
    let ind = seq![Piece { fd: STDERR, bytes: indent() }];
    lemma_seen(last, pieces);
    lemma_held_indented(fd, bytes, true);
    lemma_held_head(nl, name);
    lemma_held_one(ind[0]);
    lemma_held_concat(head, ind);
    if nl == Some(fd) && name is None {
        assert(pieces =~= indented(fd, bytes, true));
        assert(Seq::<u8>::empty() + with_indents(bytes) =~= with_indents(bytes));
    } else {
        lemma_held_concat(head + ind, indented(fd, bytes, true));
    }
}

/// What goes to any other descriptor goes there unchanged, and nothing is seen of
/// it elsewhere; no output writes nothing.
pub proof fn law_other_descriptors_get_their_bytes(
    last: i32,
    nl: Option<i32>,
    name: Option<Seq<u8>>,
    fd: i32,
    bytes: Seq<u8>,
    other: i32,
)
    requires
        fd != 1 && fd != 2,
        other != fd,
    ensures
        bytes_written(all_written(last, passed_on(nl, name, fd, bytes)), fd) == bytes,
        bytes_written(all_written(last, passed_on(nl, name, fd, bytes)), other).len() == 0,
        unfinished(nl, fd, bytes) == nl,
        all_written(last, passed_on(nl, name, 1, Seq::empty())).len() == 0,
        all_written(last, passed_on(nl, name, 2, Seq::empty())).len() == 0,
{
    let pieces = passed_on(nl, name, fd, bytes);
    law_flushes_keep_bytes(last, pieces, fd);
    law_flushes_keep_bytes(last, pieces, other);
    if bytes.len() > 0 {
        lemma_bytes_for_one(Piece { fd, bytes }, fd);
        lemma_bytes_for_one(Piece { fd, bytes }, other);
    }
}

/// Standard output and standard error never overtake each other: before anything
/// else is written, what went to one of them reaches it.
pub proof fn law_nothing_is_overtaken(last: i32, pieces: Seq<Piece>, i: int)
    requires
        0 <= i < all_written(last, pieces).len() - 1,
        all_written(last, pieces)[i] matches Effect::Write(piece) && (piece.fd == 1 || piece.fd
            == 2),
    ensures
        ({
            let fd = all_written(last, pieces)[i]->Write_0.fd;
            all_written(last, pieces)[i + 1] == Effect::Flush(fd) || (all_written(last, pieces)[i + 1]
                matches Effect::Write(next) && next.fd == fd)
        }),
    decreases pieces.len(),
{
    if pieces.len() > 0 {
        let first = pieces.drop_last();
        let before = all_written(last, first);
        let more = written(last_fd(last, first), pieces.last());
        if i + 1 < before.len() {
            law_nothing_is_overtaken(last, first, i);
        } else if i + 1 == before.len() {
            lemma_last_effect(last, first);
            assert(all_written(last, pieces)[i + 1] == more[0]);
        }
    }
}

proof fn lemma_last_effect(last: i32, pieces: Seq<Piece>)
    requires
        all_written(last, pieces).len() > 0,
    ensures
        pieces.len() > 0,
        all_written(last, pieces).last() == Effect::Write(pieces.last()),
{
}

} // verus!
