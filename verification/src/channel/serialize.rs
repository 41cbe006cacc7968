//! Values as they pass through a connection, byte by byte.

use vstd::prelude::*;

verus! {

/// A value on its way out: its bytes leave one by one.
#[derive(Debug)]
pub struct Serializer {
    bytes: Vec<u8>,
    at: usize,
    done: bool,
    pull: Option<u8>,
}

/// A value on its way in: its bytes come one by one, until the value is
/// complete.
#[derive(Debug)]
pub struct Deserializer {
    bytes: Vec<u8>,
    done: bool,
    pending: bool,
    mid: bool,
}

impl Serializer {
    /// The bytes that have not left yet.
    pub closed spec fn remaining(&self) -> Seq<u8> {
        match self.pull {
            Some(byte) => seq![byte] + self.bytes@.skip(self.at as int),
            None => Seq::empty(),
        }
    }

    /// There is a next byte exactly as long as the value has not left.
    pub closed spec fn wf(&self) -> bool {
        &&& self.at <= self.bytes@.len()
        &&& self.done <==> self.pull is None
    }

    /// Nothing on its way out.
    pub fn new() -> (r: Serializer)
        ensures
            r.wf(),
            r.remaining() == Seq::<u8>::empty(),
    {
        Serializer { bytes: Vec::new(), at: 0, done: true, pull: None }
    }

    /// Whether another value can be sent on its way.
    pub fn push_avail(&self) -> (r: bool)
        requires
            self.wf(),
        ensures
            r == (self.remaining().len() == 0),
    {
        self.done
    }

    /// Sends a value on its way, given by its bytes.
    pub fn push(&mut self, bytes: Vec<u8>)
        requires
            old(self).wf(),
            old(self).remaining().len() == 0,
        ensures
            final(self).wf(),
            final(self).remaining() == bytes@,
    {
        self.bytes = bytes;
        if self.bytes.len() == 0 {
            self.at = 0;
            self.pull = None;
            self.done = true;
            assert(self.remaining() =~= self.bytes@);
        } else {
            self.at = 1;
            self.pull = Some(self.bytes[0]);
            self.done = false;
            assert(self.remaining() =~= self.bytes@);
        }
    }

    /// Whether there is a byte to leave.
    pub fn pull_avail(&self) -> (r: bool)
        requires
            self.wf(),
        ensures
            r == (self.remaining().len() > 0),
    {
        self.pull.is_some()
    }

    /// Lets the next byte leave.
    pub fn pull(&mut self) -> (r: u8)
        requires
            old(self).wf(),
            old(self).remaining().len() > 0,
        ensures
            final(self).wf(),
            r == old(self).remaining()[0],
            final(self).remaining() == old(self).remaining().skip(1),
    {
        let ghost before = self.remaining();
        let ret: u8 = self.pull.unwrap();
        if self.at < self.bytes.len() {
            self.pull = Some(self.bytes[self.at]);
            self.at = self.at + 1;
        } else {
            self.pull = None;
            self.done = true;
        }
        assert(self.remaining() =~= before.skip(1));
        ret
    }

    /// Gives the value on its way up.
    pub fn abandon(self) -> (r: Vec<u8>)
        requires
            self.wf(),
            self.remaining().len() > 0,
        ensures
            r@ == self.remaining(),
    {
        let mut r: Vec<u8> = Vec::new();
        r.push(self.pull.unwrap());
        let mut i: usize = self.at;
        while i < self.bytes.len()
            invariant
                self.wf(),
                self.pull is Some,
                self.at <= i <= self.bytes@.len(),
                r@ =~= self.remaining().take(1 + i - self.at),
            decreases self.bytes@.len() - i,
        {
            r.push(self.bytes[i]);
            i = i + 1;
        }
        assert(self.remaining().take(self.remaining().len() as int) =~= self.remaining());
        r
    }
}

impl Default for Serializer {
    fn default() -> (r: Serializer)
        ensures
            r.wf(),
            r.remaining() == Seq::<u8>::empty(),
    {
        Serializer::new()
    }
}

/// How far a value has come in.
pub enum Incoming {
    /// No value is waited for.
    Idle,
    /// A value is waited for, and these of its bytes have come.
    Partial(Seq<u8>),
    /// A value has come in whole.
    Complete(Seq<u8>),
}

impl Deserializer {
    /// How far a value has come in.
    pub closed spec fn state(&self) -> Incoming {
        if self.done {
            Incoming::Idle
        } else if self.pending {
            Incoming::Complete(self.bytes@)
        } else {
            Incoming::Partial(self.bytes@)
        }
    }

    pub closed spec fn wf(&self) -> bool {
        &&& self.done ==> !self.pending && !self.mid
        &&& self.pending ==> !self.mid
        &&& !self.done && !self.pending ==> (self.mid <==> self.bytes@.len() > 0)
    }

    /// No value is waited for.
    pub fn new() -> (r: Deserializer)
        ensures
            r.wf(),
            r.state() == Incoming::Idle,
    {
        Deserializer { bytes: Vec::new(), done: true, pending: false, mid: false }
    }

    /// Whether a value can start to be waited for.
    pub fn pull_avail(&self) -> (r: bool)
        requires
            self.wf(),
        ensures
            r == (self.state() is Idle),
    {
        self.done
    }

    /// Starts to wait for a value.
    pub fn pull(&mut self)
        requires
            old(self).wf(),
            old(self).state() is Idle,
        ensures
            final(self).wf(),
            final(self).state() == Incoming::Partial(Seq::empty()),
    {
        self.done = false;
        self.bytes = Vec::new();
        assert(self.bytes@ =~= Seq::<u8>::empty());
    }

    /// Whether a part of a value has come in.
    pub fn mid(&self) -> (r: bool)
        requires
            self.wf(),
        ensures
            r == (self.state() matches Incoming::Partial(bytes) && bytes.len() > 0),
    {
        self.mid
    }

    /// Whether a value has come in whole.
    pub fn pull2_avail(&self) -> (r: bool)
        requires
            self.wf(),
        ensures
            r == (self.state() is Complete),
    {
        self.pending
    }

    /// The bytes of the value that has come in.
    pub fn pull2(&mut self) -> (r: Vec<u8>)
        requires
            old(self).wf(),
            old(self).state() is Complete,
        ensures
            final(self).wf(),
            old(self).state() == Incoming::Complete(r@),
            final(self).state() == Incoming::Idle,
    {
        let mut r: Vec<u8> = Vec::new();
        core::mem::swap(&mut r, &mut self.bytes);
        self.pending = false;
        self.done = true;
        r
    }

    /// Whether a byte can come in.
    pub fn push_avail(&self) -> (r: bool)
        requires
            self.wf(),
        ensures
            r == (self.state() is Partial),
    {
        !self.done && !self.pending
    }

    /// Takes a byte in; `complete` says that it is the value's last.
    pub fn push(&mut self, x: u8, complete: bool)
        requires
            old(self).wf(),
            old(self).state() is Partial,
        ensures
            final(self).wf(),
            old(self).state() matches Incoming::Partial(bytes) && final(self).state() == (
            if complete {
                Incoming::Complete(bytes.push(x))
            } else {
                Incoming::Partial(bytes.push(x))
            }),
    {
        self.bytes.push(x);
        self.mid = !complete;
        self.pending = complete;
    }

    /// The bytes that have come in so far of the value that is waited for; `None`
    /// if none is.
    pub fn partial(&self) -> (r: Option<Vec<u8>>)
        requires
            self.wf(),
        ensures
            match r {
                Some(bytes) => self.state() == Incoming::Partial(bytes@),
                None => !(self.state() is Partial),
            },
    {
        if !self.push_avail() {
            return None;
        }
        let mut bytes: Vec<u8> = Vec::new();
        for i in 0..self.bytes.len()
            invariant
                bytes@ == self.bytes@.take(i as int),
        {
            bytes.push(self.bytes[i]);
            assert(bytes@ =~= self.bytes@.take(i + 1));
        }
        assert(self.bytes@.take(self.bytes@.len() as int) =~= self.bytes@);
        Some(bytes)
    }

    /// Gives the value up that is waited for or has come in.
    pub fn abandon(self) -> (r: Vec<u8>)
        requires
            self.wf(),
            !(self.state() is Idle),
        ensures
            match self.state() {
                Incoming::Partial(bytes) => r@ == bytes,
                Incoming::Complete(bytes) => r@ == bytes,
                Incoming::Idle => false,
            },
    {
        self.bytes
    }
}

impl Default for Deserializer {
    fn default() -> (r: Deserializer)
        ensures
            r.wf(),
            r.state() == Incoming::Idle,
    {
        Deserializer::new()
    }
}

/// What bytes make of a value that is waited for, of which the last one
/// completes it.
pub open spec fn taken_in(state: Incoming, bytes: Seq<u8>) -> Incoming
    decreases bytes.len(),
{
    if bytes.len() == 0 {
        state
    } else {
        match taken_in(state, bytes.drop_last()) {
            Incoming::Partial(before) => Incoming::Partial(before.push(bytes.last())),
            other => other,
        }
    }
}

/// The bytes of a value come in as they left: taking in, one by one, what a
/// serializer lets leave gives the value's bytes in their order.
pub proof fn law_bytes_arrive_in_order(bytes: Seq<u8>)
    ensures
        taken_in(Incoming::Partial(Seq::empty()), bytes) == Incoming::Partial(bytes),
    decreases bytes.len(),
{
    if bytes.len() == 0 {
        assert(bytes =~= Seq::<u8>::empty());
    } else {
        law_bytes_arrive_in_order(bytes.drop_last());
        assert(bytes.drop_last().push(bytes.last()) =~= bytes);
    }
}

} // verus!
