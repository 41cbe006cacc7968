//! A queue of fixed size in which positions wrap around.
//!
//! The position `tail` of the oldest item stays below the size of the queue;
//! `head`, where the next item goes, may be up to one size beyond `tail`.

use vstd::prelude::*;

verus! {

/// A queue of fixed size.
pub struct CircularBuffer<T> {
    head: usize,
    tail: usize,
    buf: Vec<Option<T>>,
}

/// What a try to send the queue's items met with.
#[derive(Copy, Clone, PartialEq, Eq, Debug, Structural)]
pub enum Sent {
    /// That many items were sent.
    Items(usize),
    /// Nothing can be sent for now.
    WouldBlock,
    /// Sending failed with this error number.
    Failed(i32),
    /// There was nothing to send; the connection's error number is this.
    Drained(i32),
}

/// What a try to receive items met with.
#[derive(Clone, PartialEq, Eq, Debug)]
pub enum Received {
    /// These items were received.
    Items(Vec<u8>),
    /// The other side has ended.
    Closed,
    /// Nothing can be received for now.
    WouldBlock,
    /// Receiving failed with this error number.
    Failed(i32),
    /// There was no room to receive into; whether the other side has ended.
    Full(bool),
}

/// Whether sending goes on after that many items, or what came of it.
#[derive(Copy, Clone, PartialEq, Eq, Debug)]
pub enum SendStep {
    More(usize),
    Done(Result<usize, i32>),
}

/// Whether receiving goes on after that many items, or what came of it.
#[derive(Copy, Clone, PartialEq, Eq, Debug)]
pub enum ReceiveStep {
    More(usize),
    Done(Result<(usize, bool), i32>),
}

/// How sending goes on after what it met with.
pub open spec fn send_step(written: usize, sent: Sent) -> SendStep {
    match sent {
        Sent::Items(n) => SendStep::More((written + n) as usize),
        Sent::WouldBlock => SendStep::Done(Ok(written)),
        Sent::Failed(error) => SendStep::Done(Err(error)),
        Sent::Drained(error) => SendStep::Done(
            if error == 0 {
                Ok(written)
            } else {
                Err(error)
            },
        ),
    }
}

/// How receiving goes on after what it met with.
pub open spec fn receive_step(read: usize, received: Received) -> ReceiveStep {
    match received {
        Received::Items(items) => ReceiveStep::More((read + items@.len()) as usize),
        Received::Closed => ReceiveStep::Done(Ok((read, true))),
        Received::WouldBlock => ReceiveStep::Done(Ok((read, false))),
        Received::Failed(error) => ReceiveStep::Done(Err(error)),
        Received::Full(closed) => ReceiveStep::Done(Ok((read, closed))),
    }
}

/// Where position `at` of a queue of size `cap` is stored.
pub open spec fn slot(at: int, cap: int) -> int {
    if at < cap {
        at
    } else {
        at - cap
    }
}

impl<T> CircularBuffer<T> {
    /// How many items the queue holds at most.
    pub closed spec fn cap(&self) -> nat {
        self.buf@.len()
    }

    /// The oldest item's place is within the queue, no more items are in it than
    /// fit, and there is an item in each place between the two positions.
    pub closed spec fn wf(&self) -> bool {
        &&& self.buf@.len() <= usize::MAX / 2
        &&& self.tail <= self.head <= self.tail + self.buf@.len()
        &&& self.buf@.len() > 0 ==> self.tail < self.buf@.len()
        &&& self.buf@.len() == 0 ==> self.tail == 0
        &&& forall|i: int|
            self.tail <= i < self.head ==> (#[trigger] self.buf@[slot(
                i,
                self.buf@.len() as int,
            )]) is Some
    }

    /// The items of the queue, the oldest first.
    pub closed spec fn contents(&self) -> Seq<T> {
        Seq::new(
            (self.head - self.tail) as nat,
            |i: int| self.buf@[slot(self.tail + i, self.buf@.len() as int)].unwrap(),
        )
    }

    /// An empty queue of the given size.
    pub fn new(cap: usize) -> (r: CircularBuffer<T>)
        requires
            cap <= usize::MAX / 2,
        ensures
            r.wf(),
            r.cap() == cap,
            r.contents() == Seq::<T>::empty(),
    {
        let mut buf: Vec<Option<T>> = Vec::with_capacity(cap);
        for i in 0..cap
            invariant
                buf.len() == i,
        {
            buf.push(None);
        }
        let r = CircularBuffer { head: 0, tail: 0, buf };
        assert(r.contents() =~= Seq::<T>::empty());
        r
    }

    /// How many items the queue holds at most.
    pub fn capacity(&self) -> (r: usize)
        ensures
            r == self.cap(),
    {
        self.buf.len()
    }

    /// How many items can be read.
    pub fn read_available(&self) -> (r: usize)
        requires
            self.wf(),
        ensures
            r == self.contents().len(),
    {
        self.head - self.tail
    }

    /// How many items can be written.
    pub fn write_available(&self) -> (r: usize)
        requires
            self.wf(),
        ensures
            r == self.cap() - self.contents().len(),
    {
        self.capacity() - self.read_available()
    }

    /// Moves the oldest place on by `n`.
    fn advance(&mut self, n: usize)
        requires
            old(self).wf(),
            n <= old(self).contents().len(),
        ensures
            final(self).wf(),
            final(self).cap() == old(self).cap(),
            final(self).contents() == old(self).contents().skip(n as int),
    {
        let ghost before = *self;
        let ghost cap = self.buf@.len() as int;
        self.tail = self.tail + n;
        if self.tail >= self.buf.len() && self.buf.len() > 0 {
            self.head = self.head - self.buf.len();
            self.tail = self.tail - self.buf.len();
        }
        proof {
            let shift = before.tail + n - self.tail;
            assert forall|i: int| self.tail <= i < self.head implies (#[trigger] self.buf@[slot(
                i,
                cap,
            )]) is Some by {
                assert(before.buf@[slot(i + shift, cap)] is Some);
            }
            assert forall|i: int| 0 <= i < self.contents().len() implies self.contents()[i]
                == before.contents().skip(n as int)[i] by {
                assert(slot(self.tail + i, cap) == slot(before.tail + n + i, cap));
            }
            assert(self.contents() =~= before.contents().skip(n as int));
        }
    }

    /// Takes the oldest item out, if there is one.
    pub fn read(&mut self) -> (r: Option<T>)
        requires
            old(self).wf(),
        ensures
            final(self).wf(),
            final(self).cap() == old(self).cap(),
            match r {
                Some(x) => old(self).contents().len() > 0 && x == old(self).contents()[0]
                    && final(self).contents() == old(self).contents().skip(1),
                None => old(self).contents().len() == 0 && final(self).contents() == old(
                    self,
                ).contents(),
            },
    {
        if self.head == self.tail {
            return None;
        }
        let ghost before = *self;
        let ghost cap = self.buf@.len() as int;
        let off: usize = self.tail;
        assert(self.buf@[slot(off as int, cap)] is Some);
        assert(self.contents()[0] == self.buf@[off as int].unwrap());
        let mut taken: Option<T> = None;
        core::mem::swap(&mut taken, &mut self.buf[off]);
        self.tail = self.tail + 1;
        if self.tail >= self.buf.len() {
            self.head = self.head - self.buf.len();
            self.tail = self.tail - self.buf.len();
        }
        proof {
            let shift = before.tail + 1 - self.tail;
            assert forall|i: int| self.tail <= i < self.head implies (#[trigger] self.buf@[slot(
                i,
                cap,
            )]) is Some by {
                assert(before.buf@[slot(i + shift, cap)] is Some);
                assert(slot(i, cap) == slot(i + shift, cap));
            }
            assert forall|i: int| 0 <= i < self.contents().len() implies self.contents()[i]
                == before.contents().skip(1)[i] by {
                assert(slot(self.tail + i, cap) == slot(before.tail + 1 + i, cap));
            }
            assert(self.contents() =~= before.contents().skip(1));
        }
        taken
    }

    /// Writes an item if there is room for it, and hands it back otherwise.
    pub fn write(&mut self, t: T) -> (r: Option<T>)
        requires
            old(self).wf(),
        ensures
            final(self).wf(),
            final(self).cap() == old(self).cap(),
            match r {
                None => old(self).contents().len() < old(self).cap() && final(self).contents()
                    == old(self).contents().push(t),
                Some(back) => old(self).contents().len() == old(self).cap() && back == t
                    && final(self).contents() == old(self).contents(),
            },
    {
        if self.write_available() == 0 {
            return Some(t);
        }
        let ghost before = *self;
        let cap: usize = self.buf.len();
        let off: usize = if self.head < cap {
            self.head
        } else {
            self.head - cap
        };
        self.buf.set(off, Some(t));
        self.head = self.head + 1;
        proof {
            assert forall|i: int| self.tail <= i < self.head implies (#[trigger] self.buf@[slot(
                i,
                cap as int,
            )]) is Some by {
                if i < before.head {
                    assert(before.buf@[slot(i, cap as int)] is Some);
                }
            }
            assert forall|i: int| 0 <= i < self.contents().len() implies self.contents()[i]
                == before.contents().push(t)[i] by {
                if i < before.contents().len() {
                    assert(slot(self.tail + i, cap as int) != off);
                }
            }
            assert(self.contents() =~= before.contents().push(t));
        }
        None
    }
}

impl CircularBuffer<u8> {
    /// The items of the queue.
    pub fn peek_all(&self) -> (r: Vec<u8>)
        requires
            self.wf(),
        ensures
            r@ == self.contents(),
    {
        let cap: usize = self.buf.len();
        let n: usize = self.head - self.tail;
        let mut r: Vec<u8> = Vec::new();
        let mut i: usize = 0;
        while i < n
            invariant
                self.wf(),
                cap == self.buf@.len(),
                n == self.contents().len(),
                i <= n,
                r@ =~= self.contents().take(i as int),
            decreases n - i,
        {
            let at: usize = self.tail + i;
            let off: usize = if at < cap {
                at
            } else {
                at - cap
            };
            assert(self.buf@[slot(at as int, cap as int)] is Some);
            match self.buf[off] {
                Some(x) => {
                    r.push(x);
                },
                None => {},
            }
            i = i + 1;
        }
        r
    }

    /// Goes on sending the queue's items after a try. What was sent leaves the
    /// queue.
    pub fn read_to_fd(&mut self, written: usize, sent: Sent) -> (r: SendStep)
        requires
            old(self).wf(),
            match sent {
                Sent::Items(n) => n <= old(self).contents().len() && written + n <= usize::MAX,
                Sent::Drained(_) => old(self).contents().len() == 0,
                _ => true,
            },
        ensures
            final(self).wf(),
            final(self).cap() == old(self).cap(),
            r == send_step(written, sent),
            final(self).contents() == (match sent {
                Sent::Items(n) => old(self).contents().skip(n as int),
                _ => old(self).contents(),
            }),
    {
        match sent {
            Sent::Items(n) => {
                self.advance(n);
                SendStep::More(written + n)
            },
            Sent::WouldBlock => SendStep::Done(Ok(written)),
            Sent::Failed(error) => SendStep::Done(Err(error)),
            Sent::Drained(error) => if error == 0 {
                SendStep::Done(Ok(written))
            } else {
                SendStep::Done(Err(error))
            },
        }
    }

    /// Goes on receiving items into the queue after a try.
    pub fn write_from_fd(&mut self, read: usize, received: Received) -> (r: ReceiveStep)
        requires
            old(self).wf(),
            match received {
                Received::Items(items) => old(self).contents().len() + items@.len() <= old(
                    self,
                ).cap() && read + items@.len() <= usize::MAX,
                Received::Full(_) => old(self).contents().len() == old(self).cap(),
                _ => true,
            },
        ensures
            final(self).wf(),
            final(self).cap() == old(self).cap(),
            r == receive_step(read, received),
            final(self).contents() == (match received {
                Received::Items(items) => old(self).contents() + items@,
                _ => old(self).contents(),
            }),
    {
        match received {
            Received::Items(items) => {
                let n: usize = items.len();
                let mut i: usize = 0;
                while i < n
                    invariant
                        self.wf(),
                        i <= n,
                        n == items@.len(),
                        self.cap() == old(self).cap(),
                        old(self).contents().len() + n <= old(self).cap(),
                        self.contents() =~= old(self).contents() + items@.take(i as int),
                    decreases n - i,
                {
                    let _ = self.write(items[i]);
                    i = i + 1;
                }
                assert(items@.take(n as int) =~= items@);
                ReceiveStep::More(read + n)
            },
            Received::Closed => ReceiveStep::Done(Ok((read, true))),
            Received::WouldBlock => ReceiveStep::Done(Ok((read, false))),
            Received::Failed(error) => ReceiveStep::Done(Err(error)),
            Received::Full(closed) => ReceiveStep::Done(Ok((read, closed))),
        }
    }
}

/// Sending goes on exactly as long as items leave, and counts each of them; it fails
/// exactly if an error is met, and then with that error; otherwise as many items are
/// reported as left.
pub proof fn law_sending_counts_what_left(written: usize, sent: Sent)
    requires
        sent matches Sent::Items(n) ==> written + n <= usize::MAX,
    ensures
        send_step(written, sent) is More <==> sent is Items,
        sent matches Sent::Items(n) ==> (send_step(written, sent) matches SendStep::More(total)
            && total == written + n),
        (send_step(written, sent) matches SendStep::Done(Ok(total)) ==> total == written && (sent
            is WouldBlock || sent == Sent::Drained(0))),
        (send_step(written, sent) matches SendStep::Done(Err(error)) ==> sent == Sent::Failed(error)
            || sent == Sent::Drained(error) && error != 0),
{
}

/// Receiving goes on exactly as long as items come, and counts each of them; it fails
/// exactly if an error is met, and then with that error; otherwise as many items are
/// reported as came, and that the other side has ended exactly if it has.
pub proof fn law_receiving_counts_what_came(read: usize, received: Received)
    requires
        received matches Received::Items(items) ==> read + items@.len() <= usize::MAX,
    ensures
        receive_step(read, received) is More <==> received is Items,
        received matches Received::Items(items) ==> (receive_step(read, received)
            matches ReceiveStep::More(total) && total == read + items@.len()),
        (receive_step(read, received) matches ReceiveStep::Done(Ok((total, ended))) ==> total == read
            && (ended <==> received is Closed || received == Received::Full(true))),
        (receive_step(read, received) matches ReceiveStep::Done(Err(error)) <==> (received
            matches Received::Failed(met))),
        (receive_step(read, received) matches ReceiveStep::Done(Err(error)) ==> received
            == Received::Failed(error)),
{
}

} // verus!
