//! A queue of fixed size in which positions only ever grow.
//!
//! The positions `head` and `tail` count every item that was ever written and
//! read. An item stands at its position modulo the size of the queue.

use vstd::prelude::*;

verus! {

/// The error number on Linux of a connection that its peer has reset.
pub const ECONNRESET: i32 = 104;

/// The error number on Linux of a connection that has timed out.
pub const ETIMEDOUT: i32 = 110;

/// A queue of fixed size.
pub struct CircularBuffer<T> {
    head: usize,
    tail: usize,
    buf: Vec<T>,
}

/// What came of sending the queue's items.
#[derive(Copy, Clone, PartialEq, Eq, Debug, Structural)]
pub enum CircularBufferReadToFd {
    /// That many were sent.
    Written(usize),
    /// The connection is lost.
    Killed,
}

/// What came of receiving items into the queue.
#[derive(Copy, Clone, PartialEq, Eq, Debug, Structural)]
pub enum CircularBufferWriteFromFd {
    /// That many were received, and whether the other side has ended.
    Read(usize, bool),
    /// The connection is lost.
    Killed,
}

impl CircularBufferReadToFd {
    /// How many items were sent.
    pub fn written(&self) -> (r: usize)
        requires
            *self is Written,
        ensures
            *self == CircularBufferReadToFd::Written(r),
    {
        match *self {
            CircularBufferReadToFd::Written(written) => written,
            CircularBufferReadToFd::Killed => 0,
        }
    }

    /// Whether the connection is lost.
    pub fn killed(&self) -> (r: bool)
        ensures
            r == (*self == CircularBufferReadToFd::Killed),
    {
        match *self {
            CircularBufferReadToFd::Killed => true,
            _ => false,
        }
    }
}

impl CircularBufferWriteFromFd {
    /// How many items were received, and whether the other side has ended.
    pub fn read(&self) -> (r: (usize, bool))
        requires
            *self is Read,
        ensures
            *self == CircularBufferWriteFromFd::Read(r.0, r.1),
    {
        match *self {
            CircularBufferWriteFromFd::Read(read, closed) => (read, closed),
            CircularBufferWriteFromFd::Killed => (0, false),
        }
    }

    /// Whether the connection is lost.
    pub fn killed(&self) -> (r: bool)
        ensures
            r == (*self == CircularBufferWriteFromFd::Killed),
    {
        match *self {
            CircularBufferWriteFromFd::Killed => true,
            _ => false,
        }
    }
}

/// Something that items can be read from, the oldest first.
pub trait Readable {
    type Type: Copy;

    /// Whether the source is in order.
    spec fn readable(&self) -> bool;

    /// The items that can be read, the oldest first.
    spec fn unread(&self) -> Seq<Self::Type>;

    /// The items that were read and can be put back, the oldest first.
    spec fn spent(&self) -> Seq<Self::Type>;

    /// Whether the last `len` items that were read are still counted.
    spec fn counted(&self, len: nat) -> bool;

    /// How many items can be read.
    fn read_available(&self) -> (r: usize)
        requires
            self.readable(),
        ensures
            r == self.unread().len(),
    ;

    /// Copies items into `buf`, from the one that `offset` others come before,
    /// and leaves them to be read.
    fn read_peek(&self, offset: usize, buf: &mut [Self::Type])
        requires
            self.readable(),
            offset + old(buf)@.len() <= self.unread().len(),
        ensures
            final(buf)@ == self.unread().subrange(offset as int, offset + old(buf)@.len()),
    ;

    /// Takes the next `len` items out.
    fn read_consume(&mut self, len: usize)
        requires
            old(self).readable(),
            len <= old(self).unread().len(),
        ensures
            final(self).readable(),
            final(self).unread() == old(self).unread().skip(len as int),
            final(self).spent() == old(self).spent() + old(self).unread().take(len as int),
    ;

    /// Puts the last `len` items back that were taken out.
    fn read_unconsume_hack(&mut self, len: usize)
        requires
            old(self).readable(),
            len <= old(self).spent().len(),
            old(self).counted(len as nat),
        ensures
            final(self).readable(),
            final(self).unread() == old(self).spent().skip(old(self).spent().len() - len) + old(
                self,
            ).unread(),
            final(self).spent() == old(self).spent().take(old(self).spent().len() - len),
    ;

    /// Reads items until `buf` is full.
    fn read(&mut self, buf: &mut [Self::Type])
        requires
            old(self).readable(),
            old(buf)@.len() <= old(self).unread().len(),
        ensures
            final(self).readable(),
            final(buf)@ == old(self).unread().take(old(buf)@.len() as int),
            final(self).unread() == old(self).unread().skip(old(buf)@.len() as int),
    {
        self.read_peek(0, buf);
        let len: usize = buf.len();
        self.read_consume(len);
    }

    /// Moves the next `len` items to `to`.
    fn pipe<D: Writable<Type = Self::Type>>(&mut self, to: &mut D, len: usize)
        requires
            old(self).readable(),
            old(to).writable(),
            len <= old(self).unread().len(),
            len <= old(to).ahead().len(),
            old(to).countable(len as nat),
        ensures
            final(self).readable(),
            final(to).writable(),
            final(self).unread() == old(self).unread().skip(len as int),
            final(to).written() == old(to).written() + old(self).unread().take(len as int),
            final(to).room() == old(to).room(),
    ;
}

/// Something that items can be written to.
pub trait Writable {
    type Type: Copy;

    /// Whether the target is in order.
    spec fn writable(&self) -> bool;

    /// The items that have been written and not yet taken out, the oldest first.
    spec fn written(&self) -> Seq<Self::Type>;

    /// What stands in the free places, in the order in which they are filled.
    spec fn ahead(&self) -> Seq<Self::Type>;

    /// How many items the target holds at most.
    spec fn room(&self) -> nat;

    /// Whether `len` more items can still be counted.
    spec fn countable(&self, len: nat) -> bool;

    /// How many items can be written.
    fn write_available(&self) -> (r: usize)
        requires
            self.writable(),
        ensures
            r == self.room() - self.written().len(),
            r == self.ahead().len(),
    ;

    /// Puts the items of `buf` into free places, from the one that `offset`
    /// others come before, and leaves those places free.
    fn write_peek(&mut self, offset: usize, buf: &[Self::Type])
        requires
            old(self).writable(),
            offset + buf@.len() <= old(self).ahead().len(),
            old(self).countable((offset + buf@.len()) as nat),
        ensures
            final(self).writable(),
            final(self).room() == old(self).room(),
            final(self).written() == old(self).written(),
            final(self).ahead() == old(self).ahead().take(offset as int) + buf@ + old(
                self,
            ).ahead().skip(offset + buf@.len()),
            forall|n: nat| final(self).countable(n) == old(self).countable(n),
    ;

    /// Makes what stands in the next `len` free places part of what is written.
    fn write_consume(&mut self, len: usize)
        requires
            old(self).writable(),
            len <= old(self).ahead().len(),
            old(self).countable(len as nat),
        ensures
            final(self).writable(),
            final(self).room() == old(self).room(),
            final(self).written() == old(self).written() + old(self).ahead().take(len as int),
            final(self).ahead() == old(self).ahead().skip(len as int),
    ;

    /// Writes the items of `buf`.
    fn write(&mut self, buf: &[Self::Type])
        requires
            old(self).writable(),
            buf@.len() <= old(self).ahead().len(),
            old(self).countable(buf@.len()),
        ensures
            final(self).writable(),
            final(self).room() == old(self).room(),
            final(self).written() == old(self).written() + buf@,
    {
        self.write_peek(0, buf);
        assert(self.ahead().take(buf@.len() as int) =~= buf@);
        self.write_consume(buf.len());
    }
}

impl<T> CircularBuffer<T> {
    pub closed spec fn spec_head(&self) -> int {
        self.head as int
    }

    pub closed spec fn spec_tail(&self) -> int {
        self.tail as int
    }

    /// The queue's storage.
    pub closed spec fn slots(&self) -> Seq<T> {
        self.buf@
    }

    /// How many items the queue holds at most.
    pub open spec fn spec_len(&self) -> int {
        self.slots().len() as int
    }

    /// Nothing is read before it is written, and nothing is overwritten before
    /// it is read.
    pub open spec fn wf(&self) -> bool {
        &&& self.spec_len() > 0
        &&& 0 <= self.spec_tail() <= self.spec_head() <= self.spec_tail() + self.spec_len()
        &&& self.spec_head() <= usize::MAX
    }

    /// The items of the queue, the oldest first.
    pub open spec fn contents(&self) -> Seq<T> {
        Seq::new(
            (self.spec_head() - self.spec_tail()) as nat,
            |i: int| self.slots()[(self.spec_tail() + i) % self.spec_len()],
        )
    }

    /// What stands in the free places, in the order in which they are filled.
    pub open spec fn free_slots(&self) -> Seq<T> {
        Seq::new(
            (self.spec_len() - (self.spec_head() - self.spec_tail())) as nat,
            |i: int| self.slots()[(self.spec_head() + i) % self.spec_len()],
        )
    }

    /// How many items were ever written.
    pub fn ever_written(&self) -> (r: usize)
        ensures
            r == self.spec_head(),
    {
        self.head
    }

    /// How many items the queue holds at most.
    pub fn len(&self) -> (r: usize)
        ensures
            r == self.spec_len(),
    {
        self.buf.len()
    }
}

impl<T: Copy + Default> CircularBuffer<T> {
    /// An empty queue of the given size.
    pub fn new(size: usize) -> (r: CircularBuffer<T>)
        requires
            size > 0,
        ensures
            r.wf(),
            r.spec_len() == size,
            r.spec_head() == 0,
            r.spec_tail() == 0,
            r.contents() == Seq::<T>::empty(),
    {
        let mut buf: Vec<T> = Vec::with_capacity(size);
        for i in 0..size
            invariant
                buf.len() == i,
        {
            buf.push(T::default());
        }
        let r = CircularBuffer { head: 0, tail: 0, buf };
        assert(r.contents() =~= Seq::<T>::empty());
        r
    }
}

proof fn lemma_distinct_slots(a: int, b: int, size: int)
    requires
        size > 0,
        0 <= a < b < a + size,
    ensures
        a % size != b % size,
{
    if a % size == b % size {
        vstd::arithmetic::div_mod::lemma_fundamental_div_mod(a, size);
        vstd::arithmetic::div_mod::lemma_fundamental_div_mod(b, size);
        let q = b / size - a / size;
        assert(b - a == size * (b / size) - size * (a / size));
        assert(size * (b / size) - size * (a / size) == size * q) by (nonlinear_arith)
            requires
                q == b / size - a / size,
        ;
        assert(0 < size * q < size);
        assert(false) by (nonlinear_arith)
            requires
                0 < size * q < size,
                size > 0,
        ;
    }
}

proof fn lemma_wrap(a: int, size: int)
    requires
        size > 0,
    ensures
        (a + size) % size == a % size,
        0 <= a % size < size,
{
    vstd::arithmetic::div_mod::lemma_mod_add_multiples_vanish(a, size);
}

impl<T: Copy> Readable for CircularBuffer<T> {
    type Type = T;

    open spec fn readable(&self) -> bool {
        self.wf()
    }

    open spec fn unread(&self) -> Seq<T> {
        self.contents()
    }

    open spec fn spent(&self) -> Seq<T> {
        self.free_slots()
    }

    open spec fn counted(&self, len: nat) -> bool {
        len <= self.spec_tail()
    }

    fn read_available(&self) -> (r: usize) {
        self.head - self.tail
    }

    fn read_peek(&self, offset: usize, buf: &mut [T]) {
        let n: usize = buf.len();
        let size: usize = self.buf.len();
        let mut i: usize = 0;
        while i < n
            invariant
                self.wf(),
                i <= n,
                n == buf@.len(),
                size == self.spec_len(),
                offset + n <= self.contents().len(),
                forall|j: int|
                    0 <= j < i ==> #[trigger] buf@[j] == self.contents()[offset + j],
            decreases n - i,
        {
            let at: usize = (self.tail + offset + i) % size;
            buf[i] = self.buf[at];
            i = i + 1;
        }
        assert(buf@ =~= self.contents().subrange(offset as int, offset + n));
    }

    fn read_consume(&mut self, len: usize)
        ensures
            final(self).slots() == old(self).slots(),
            final(self).spec_head() == old(self).spec_head(),
    {
        let ghost before = *self;
        self.tail = self.tail + len;
        proof {
            assert(self.contents() =~= before.contents().skip(len as int)) by {
                assert forall|i: int| 0 <= i < self.contents().len() implies self.contents()[i]
                    == before.contents().skip(len as int)[i] by {
                    assert(self.spec_tail() + i == before.spec_tail() + (len + i));
                }
            }
            let free = before.free_slots();
            assert forall|i: int| 0 <= i < self.free_slots().len() implies self.free_slots()[i] == (
            free + before.contents().take(len as int))[i] by {
                if i >= free.len() {
                    let j = i - free.len();
                    lemma_wrap(before.spec_tail() + j, self.spec_len());
                    assert(self.spec_head() + i == before.spec_tail() + j + self.spec_len());
                }
            }
            assert(self.free_slots() =~= free + before.contents().take(len as int));
            assert(self.spent() == before.spent() + before.unread().take(len as int));
        }
    }

    fn read_unconsume_hack(&mut self, len: usize)
        ensures
            final(self).slots() == old(self).slots(),
            final(self).spec_head() == old(self).spec_head(),
    {
        let ghost before = *self;
        self.tail = self.tail - len;
        proof {
            let free = before.free_slots();
            let back = free.skip(free.len() - len);
            assert forall|i: int| 0 <= i < self.contents().len() implies self.contents()[i] == (back
                + before.contents())[i] by {
                if i < len {
                    let at = before.spec_tail() - len + i;
                    lemma_wrap(at, self.spec_len());
                    assert(before.spec_head() + (free.len() - len + i) == at + self.spec_len());
                    assert(back[i] == free[free.len() - len + i]);
                } else {
                    assert(self.spec_tail() + i == before.spec_tail() + (i - len));
                }
            }
            assert(self.contents() =~= back + before.contents());
            assert(self.free_slots() =~= free.take(free.len() - len));
        }
    }

    fn pipe<D: Writable<Type = T>>(&mut self, to: &mut D, len: usize) {
        let ghost before = self.contents();
        let mut t: Vec<T> = Vec::with_capacity(len);
        let size: usize = self.buf.len();
        while t.len() < len
            invariant
                self.wf(),
                size == self.spec_len(),
                self.contents() == before,
                len <= before.len(),
                t@ =~= before.take(t.len() as int),
                t.len() <= len,
            decreases len - t.len(),
        {
            let at: usize = (self.tail + t.len()) % size;
            t.push(self.buf[at]);
        }
        self.read_consume(len);
        to.write(t.as_slice());
    }
}

impl<T: Copy> Writable for CircularBuffer<T> {
    type Type = T;

    open spec fn writable(&self) -> bool {
        self.wf()
    }

    open spec fn written(&self) -> Seq<T> {
        self.contents()
    }

    open spec fn ahead(&self) -> Seq<T> {
        self.free_slots()
    }

    open spec fn room(&self) -> nat {
        self.spec_len() as nat
    }

    open spec fn countable(&self, len: nat) -> bool {
        self.spec_head() + len <= usize::MAX
    }

    fn write_available(&self) -> (r: usize) {
        self.buf.len() - (self.head - self.tail)
    }

    fn write_peek(&mut self, offset: usize, buf: &[T]) {
        let ghost before = *self;
        let n: usize = buf.len();
        let size: usize = self.buf.len();
        let mut i: usize = 0;
        while i < n
            invariant
                before.wf(),
                self.wf(),
                i <= n,
                n == buf@.len(),
                size == self.spec_len(),
                self.head == before.head,
                self.tail == before.tail,
                self.spec_len() == before.spec_len(),
                offset + n <= before.free_slots().len(),
                before.countable((offset + n) as nat),
                self.contents() =~= before.contents(),
                self.free_slots() =~= before.free_slots().take(offset as int) + buf@.take(i as int)
                    + before.free_slots().skip(offset + i),
            decreases n - i,
        {
            let ghost mid = *self;
            let at: usize = (self.head + offset + i) % size;
            self.buf.set(at, buf[i]);
            proof {
                let pos = self.spec_head() + offset + i;
                assert forall|j: int| 0 <= j < self.contents().len() implies self.contents()[j]
                    == mid.contents()[j] by {
                    lemma_distinct_slots(self.spec_tail() + j, pos, self.spec_len());
                }
                assert forall|j: int| 0 <= j < self.free_slots().len() implies #[trigger] self.free_slots()[j]
                    == (if j == offset + i {
                    buf@[i as int]
                } else {
                    mid.free_slots()[j]
                }) by {
                    let q = self.spec_head() + j;
                    if q < pos {
                        lemma_distinct_slots(q, pos, self.spec_len());
                    }
                    if q > pos {
                        lemma_distinct_slots(pos, q, self.spec_len());
                    }
                }
            }
            i = i + 1;
        }
        assert(buf@.take(n as int) =~= buf@);
    }

    fn write_consume(&mut self, len: usize) {
        let ghost before = *self;
        self.head = self.head + len;
        proof {
            assert forall|i: int| 0 <= i < self.contents().len() implies self.contents()[i] == (
            before.contents() + before.free_slots().take(len as int))[i] by {
                if i >= before.contents().len() {
                    let j = i - before.contents().len();
                    assert(self.spec_tail() + i == before.spec_head() + j);
                }
            }
            assert(self.contents() =~= before.contents() + before.free_slots().take(len as int));
            assert forall|i: int| 0 <= i < self.free_slots().len() implies self.free_slots()[i]
                == before.free_slots().skip(len as int)[i] by {
                assert(self.spec_head() + i == before.spec_head() + (len + i));
            }
            assert(self.free_slots() =~= before.free_slots().skip(len as int));
        }
    }
}

/// What a try to send the queue's items met with.
#[derive(Copy, Clone, PartialEq, Eq, Debug, Structural)]
pub enum Sent {
    /// That many items were sent.
    Items(usize),
    /// Nothing can be sent for now.
    WouldBlock,
    /// Sending failed.
    Failed,
    /// There was nothing to send; the connection's error number is this.
    Drained(i32),
}

/// What a try to receive items met with.
#[derive(Clone, PartialEq, Eq, Debug)]
pub enum Received {
    /// These items were received.
    Items(Vec<u8>),
    /// The other side has ended.
    Closed,
    /// Nothing can be received for now.
    WouldBlock,
    /// Receiving failed.
    Failed,
    /// There was no room to receive into; whether the other side has ended.
    Full(bool),
}

/// How far sending has come: the error number that the connection had at the
/// start, and how many items have been sent.
#[derive(Copy, Clone, PartialEq, Eq, Debug, Structural)]
pub struct Sending {
    pub error: i32,
    pub written: usize,
}

/// How far receiving has come: the error number that the connection had at the
/// start, and how many items have been received.
#[derive(Copy, Clone, PartialEq, Eq, Debug, Structural)]
pub struct Receiving {
    pub error: i32,
    pub read: usize,
}

/// Whether sending goes on, or what came of it.
#[derive(Copy, Clone, PartialEq, Eq, Debug, Structural)]
pub enum SendStep {
    More(Sending),
    Done(CircularBufferReadToFd),
}

/// Whether receiving goes on, or what came of it.
#[derive(Copy, Clone, PartialEq, Eq, Debug, Structural)]
pub enum ReceiveStep {
    More(Receiving),
    Done(CircularBufferWriteFromFd),
}

/// Whether an error number is one of a connection that is lost.
pub open spec fn is_loss(error: i32) -> bool {
    error == ECONNRESET || error == ETIMEDOUT
}

/// How sending goes on after what it met with.
pub open spec fn send_step(run: Sending, sent: Sent) -> SendStep {
    match sent {
        Sent::Items(n) => SendStep::More(
            Sending { error: run.error, written: (run.written + n) as usize },
        ),
        Sent::Failed => SendStep::Done(CircularBufferReadToFd::Killed),
        Sent::Drained(error) if error != 0 => SendStep::Done(CircularBufferReadToFd::Killed),
        _ => SendStep::Done(
            if is_loss(run.error) {
                CircularBufferReadToFd::Killed
            } else {
                CircularBufferReadToFd::Written(run.written)
            },
        ),
    }
}

/// How receiving goes on after what it met with.
pub open spec fn receive_step(run: Receiving, received: Received) -> ReceiveStep {
    let ends = |closed: bool|
        ReceiveStep::Done(
            if is_loss(run.error) {
                CircularBufferWriteFromFd::Killed
            } else {
                CircularBufferWriteFromFd::Read(run.read, closed)
            },
        );
    match received {
        Received::Items(items) => ReceiveStep::More(
            Receiving { error: run.error, read: (run.read + items@.len()) as usize },
        ),
        Received::Failed => ReceiveStep::Done(CircularBufferWriteFromFd::Killed),
        Received::Closed => ends(true),
        Received::WouldBlock => ends(false),
        Received::Full(closed) => ends(closed),
    }
}

fn lossy(error: i32) -> (r: bool)
    ensures
        r == is_loss(error),
{
    error == ECONNRESET || error == ETIMEDOUT
}

impl CircularBuffer<u8> {
    /// The items of the queue in the two runs in which they are stored.
    pub fn read_runs(&self) -> (r: (Vec<u8>, Vec<u8>))
        requires
            self.wf(),
        ensures
            r.0@ + r.1@ == self.contents(),
            r.0@.len() == (if self.spec_tail() % self.spec_len() + self.contents().len()
                <= self.spec_len() {
                self.contents().len() as int
            } else {
                self.spec_len() - self.spec_tail() % self.spec_len()
            }),
    {
        let size: usize = self.buf.len();
        let len: usize = self.head - self.tail;
        let start: usize = self.tail % size;
        let first: usize = if len <= size - start {
            len
        } else {
            size - start
        };
        let mut a: Vec<u8> = Vec::new();
        let mut b: Vec<u8> = Vec::new();
        let mut i: usize = 0;
        while i < len
            invariant
                self.wf(),
                size == self.spec_len(),
                len == self.contents().len(),
                first <= len,
                i <= len,
                a.len() == (if i < first {
                    i
                } else {
                    first
                }),
                i < first ==> b.len() == 0,
                a@ + b@ =~= self.contents().take(i as int),
            decreases len - i,
        {
            let x: u8 = self.buf[(self.tail + i) % size];
            let ghost before = a@ + b@;
            if i < first {
                a.push(x);
            } else {
                b.push(x);
            }
            assert(a@ + b@ =~= before.push(x));
            assert(x == self.contents()[i as int]);
            assert(self.contents().take(i + 1) =~= self.contents().take(i as int).push(x));
            i = i + 1;
        }
        assert(self.contents().take(len as int) =~= self.contents());
        (a, b)
    }

    /// Goes on sending the queue's items after a try. What was sent leaves the
    /// queue.
    pub fn read_to_fd(&mut self, run: Sending, sent: Sent) -> (r: SendStep)
        requires
            old(self).wf(),
            match sent {
                Sent::Items(n) => n <= old(self).contents().len() && run.written + n <= usize::MAX,
                Sent::Failed => true,
                Sent::WouldBlock => run.error == 0 || is_loss(run.error),
                Sent::Drained(error) => old(self).contents().len() == 0 && (error != 0 || run.error
                    == 0 || is_loss(run.error)),
            },
        ensures
            final(self).wf(),
            final(self).spec_len() == old(self).spec_len(),
            r == send_step(run, sent),
            final(self).contents() == (match sent {
                Sent::Items(n) => old(self).contents().skip(n as int),
                _ => old(self).contents(),
            }),
    {
        match sent {
            Sent::Items(n) => {
                self.read_consume(n);
                SendStep::More(Sending { error: run.error, written: run.written + n })
            },
            Sent::Failed => SendStep::Done(CircularBufferReadToFd::Killed),
            Sent::WouldBlock => {
                if lossy(run.error) {
                    SendStep::Done(CircularBufferReadToFd::Killed)
                } else {
                    SendStep::Done(CircularBufferReadToFd::Written(run.written))
                }
            },
            Sent::Drained(error) => {
                if error != 0 || lossy(run.error) {
                    SendStep::Done(CircularBufferReadToFd::Killed)
                } else {
                    SendStep::Done(CircularBufferReadToFd::Written(run.written))
                }
            },
        }
    }

    /// Goes on receiving items into the queue after a try.
    pub fn write_from_fd(&mut self, run: Receiving, received: Received) -> (r: ReceiveStep)
        requires
            old(self).wf(),
            match received {
                Received::Items(items) => items@.len() <= old(self).free_slots().len()
                    && old(self).spec_head() + items@.len() <= usize::MAX && run.read
                    + items@.len() <= usize::MAX,
                Received::Failed => true,
                Received::Full(_) => old(self).free_slots().len() == 0 && (run.error == 0
                    || is_loss(run.error)),
                _ => run.error == 0 || is_loss(run.error),
            },
        ensures
            final(self).wf(),
            final(self).spec_len() == old(self).spec_len(),
            r == receive_step(run, received),
            final(self).contents() == (match received {
                Received::Items(items) => old(self).contents() + items@,
                _ => old(self).contents(),
            }),
    {
        let closed = match received {
            Received::Items(items) => {
                let n: usize = items.len();
                Writable::write(self, items.as_slice());
                return ReceiveStep::More(Receiving { error: run.error, read: run.read + n });
            },
            Received::Failed => {
                return ReceiveStep::Done(CircularBufferWriteFromFd::Killed);
            },
            Received::Closed => true,
            Received::WouldBlock => false,
            Received::Full(closed) => closed,
        };
        if lossy(run.error) {
            ReceiveStep::Done(CircularBufferWriteFromFd::Killed)
        } else {
            ReceiveStep::Done(CircularBufferWriteFromFd::Read(run.read, closed))
        }
    }

    /// Reads as many items as there are, at most until `buf` is full, and says
    /// how many.
    pub fn read_some(&mut self, buf: &mut Vec<u8>) -> (r: usize)
        requires
            old(self).wf(),
        ensures
            final(self).wf(),
            final(self).spec_len() == old(self).spec_len(),
            r == (if old(buf)@.len() < old(self).contents().len() {
                old(buf)@.len()
            } else {
                old(self).contents().len()
            }),
            final(buf)@ == old(self).contents().take(r as int) + old(buf)@.skip(r as int),
            final(self).contents() == old(self).contents().skip(r as int),
    {
        let available: usize = self.read_available();
        let amount: usize = if buf.len() < available {
            buf.len()
        } else {
            available
        };
        let size: usize = self.buf.len();
        let mut i: usize = 0;
        while i < amount
            invariant
                self.wf(),
                *self == *old(self),
                size == self.spec_len(),
                i <= amount,
                amount <= self.contents().len(),
                amount <= old(buf)@.len(),
                buf@ =~= self.contents().take(i as int) + old(buf)@.skip(i as int),
            decreases amount - i,
        {
            buf.set(i, self.buf[(self.tail + i) % size]);
            i = i + 1;
        }
        self.read_consume(amount);
        amount
    }

    /// Writes as many items of `buf` as there is room for, and says how many;
    /// fails where there are items and no room at all.
    pub fn write_some(&mut self, buf: &Vec<u8>) -> (r: Result<usize, ()>)
        requires
            old(self).wf(),
            old(self).spec_head() + buf@.len() <= usize::MAX,
        ensures
            final(self).wf(),
            final(self).spec_len() == old(self).spec_len(),
            match r {
                Ok(n) => n == (if buf@.len() < old(self).free_slots().len() {
                    buf@.len()
                } else {
                    old(self).free_slots().len()
                }) && (buf@.len() > 0 ==> n > 0) && final(self).contents() == old(self).contents()
                    + buf@.take(n as int),
                Err(()) => buf@.len() > 0 && old(self).free_slots().len() == 0
                    && final(self).contents() == old(self).contents(),
            },
    {
        let available: usize = self.write_available();
        let amount: usize = if buf.len() < available {
            buf.len()
        } else {
            available
        };
        if buf.len() > 0 && amount == 0 {
            return Err(());
        }
        let part: &[u8] = vstd::slice::slice_subrange(buf.as_slice(), 0, amount);
        Writable::write(self, part);
        assert(part@ =~= buf@.take(amount as int));
        Ok(amount)
    }
}

/// Items that were taken out and put back are read again as if they had never
/// been taken out.
pub proof fn law_put_back_restores<T>(unread: Seq<T>, spent: Seq<T>, len: int)
    requires
        0 <= len <= unread.len(),
    ensures
        ({
            let after = spent + unread.take(len);
            &&& after.skip(after.len() - len) + unread.skip(len) == unread
            &&& after.take(after.len() - len) == spent
        }),
{
    let after = spent + unread.take(len);
    assert(after.skip(after.len() - len) + unread.skip(len) =~= unread);
    assert(after.take(after.len() - len) =~= spent);
}

/// Items are read in the order in which they were written: reading `len` items
/// after `more` were written behind `unread` gives the oldest ones, and the rest
/// stay.
pub proof fn law_first_in_first_out<T>(unread: Seq<T>, more: Seq<T>, len: int)
    requires
        0 <= len <= unread.len() + more.len(),
    ensures
        (unread + more).take(len) + (unread + more).skip(len) == unread + more,
        len <= unread.len() ==> (unread + more).take(len) == unread.take(len),
        len >= unread.len() ==> (unread + more).take(len) == unread + more.take(
            len - unread.len(),
        ),
{
    assert((unread + more).take(len) + (unread + more).skip(len) =~= unread + more);
    if len <= unread.len() {
        assert((unread + more).take(len) =~= unread.take(len));
    }
    if len >= unread.len() {
        assert((unread + more).take(len) =~= unread + more.take(len - unread.len()));
    }
}

/// What is in the queue and what is free always add up to its size.
pub proof fn law_room_adds_up<T>(queue: CircularBuffer<T>)
    requires
        queue.wf(),
    ensures
        queue.contents().len() + queue.free_slots().len() == queue.spec_len(),
{
}

/// Sending goes on exactly as long as items leave, and counts each of them; a
/// connection is reported lost exactly if sending failed, or it had an error by then,
/// or it had been reset or timed out before.
pub proof fn law_sending_counts_what_left(run: Sending, sent: Sent)
    requires
        sent matches Sent::Items(n) ==> run.written + n <= usize::MAX,
    ensures
        send_step(run, sent) is More <==> sent is Items,
        sent matches Sent::Items(n) ==> (send_step(run, sent) matches SendStep::More(after)
            && after.written == run.written + n && after.error == run.error),
        send_step(run, sent) == SendStep::Done(CircularBufferReadToFd::Killed) <==> {
            ||| sent is Failed
            ||| (sent matches Sent::Drained(error) && error != 0)
            ||| !(sent is Items) && (run.error == 104 || run.error == 110)
        },
        (send_step(run, sent) matches SendStep::Done(CircularBufferReadToFd::Written(n))
            ==> n == run.written),
{
}

/// Receiving goes on exactly as long as items come, and counts each of them; the
/// other side is reported to have ended exactly if it has; and a connection is
/// reported lost exactly if receiving failed, or it had been reset or timed out
/// before.
pub proof fn law_receiving_counts_what_came(run: Receiving, received: Received)
    requires
        received matches Received::Items(items) ==> run.read + items@.len() <= usize::MAX,
    ensures
        receive_step(run, received) is More <==> received is Items,
        received matches Received::Items(items) ==> (receive_step(run, received)
            matches ReceiveStep::More(after) && after.read == run.read + items@.len()
            && after.error == run.error),
        receive_step(run, received) == ReceiveStep::Done(CircularBufferWriteFromFd::Killed) <==> {
            ||| received is Failed
            ||| !(received is Items) && (run.error == 104 || run.error == 110)
        },
        (receive_step(run, received) matches ReceiveStep::Done(
            CircularBufferWriteFromFd::Read(n, ended),
        ) ==> n == run.read && (ended <==> received is Closed || received == Received::Full(true))),
{
}

} // verus!
