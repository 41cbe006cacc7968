//! Requests to start a process, and how files travel in them.

use crate::launch::RawVar;
use crate::net::SocketAddr;
use crate::resources::Resources;
use crate::units::{Cpu, Mem};
use vstd::bytes::{
    lemma_auto_spec_u64_to_from_le_bytes, spec_u64_from_le_bytes, spec_u64_to_le_bytes,
};
use vstd::prelude::*;

verus! {

/// A request to a node to start a process. `A` is what an argument is held in,
/// and `B` what a binary is.
#[derive(Debug)]
pub struct FabricRequest<A, B> {
    /// Whether to wait for space to place the process, or to give up.
    pub block: bool,
    /// The resources that the process requires.
    pub resources: Resources,
    /// The addresses to bind for the process.
    pub bind: Vec<SocketAddr>,
    /// The arguments of the process.
    pub args: Vec<Vec<u8>>,
    /// The environment of the process.
    pub vars: Vec<RawVar>,
    /// An extra argument, which the process finds at a descriptor.
    pub arg: A,
    /// The program to start.
    pub binary: B,
}

/// A request to a bridge to start a process.
#[derive(Debug)]
pub struct BridgeRequest<A, B> {
    /// The resources that the process requires; `None` if it is to be asked.
    pub resources: Option<Resources>,
    /// The arguments of the process.
    pub args: Vec<Vec<u8>>,
    /// The environment of the process.
    pub vars: Vec<RawVar>,
    /// An extra argument, which the process finds at a descriptor.
    pub arg: A,
    /// The program to start.
    pub binary: B,
}

impl<A, B> BridgeRequest<A, B> {
    /// A request to run a program, which is to be asked what it requires.
    pub fn new(args: Vec<Vec<u8>>, vars: Vec<RawVar>, arg: A, binary: B) -> (r: BridgeRequest<A, B>)
        ensures
            r == (BridgeRequest { resources: None, args, vars, arg, binary }),
    {
        BridgeRequest { resources: None, args, vars, arg, binary }
    }

    /// The request that goes on to the scheduler once it is known what the
    /// program requires: it waits for space, and has no addresses bound.
    pub fn into_fabric(self, resources: Resources) -> (r: FabricRequest<A, B>)
        ensures
            r.block,
            r.resources == resources,
            r.bind@ == Seq::<SocketAddr>::empty(),
            r.args == self.args,
            r.vars == self.vars,
            r.arg == self.arg,
            r.binary == self.binary,
    {
        FabricRequest {
            block: true,
            resources,
            bind: Vec::new(),
            args: self.args,
            vars: self.vars,
            arg: self.arg,
            binary: self.binary,
        }
    }
}

/// The request by which the master has a bridge started at the address `bridge`:
/// it takes up no resources, and is not waited for. `exe` is the program, which
/// is told to be a bridge.
pub fn bridge_at<B>(bridge: SocketAddr, exe: Vec<u8>, binary: B) -> (r: FabricRequest<Vec<u8>, B>)
    ensures
        !r.block,
        r.resources == (Resources { mem: Mem(0), cpu: Cpu(0) }),
        r.bind@ == seq![bridge],
        r.args@.len() == 2,
        r.args@[0] == exe,
        r.args@[1]@ == "bridge"@.map_values(|c: char| c as u8),
        r.vars@.len() == 0,
        r.arg@.len() == 0,
        r.binary == binary,
{
    let mut bind: Vec<SocketAddr> = Vec::new();
    bind.push(bridge);
    assert(bind@ =~= seq![bridge]);
    let mut args: Vec<Vec<u8>> = Vec::new();
    args.push(exe);
    let mut word: Vec<u8> = Vec::new();
    word.push(0x62);
    word.push(0x72);
    word.push(0x69);
    word.push(0x64);
    word.push(0x67);
    word.push(0x65);
    proof {
        reveal_strlit("bridge");
        assert(word@ =~= "bridge"@.map_values(|c: char| c as u8));
    }
    args.push(word);
    FabricRequest {
        block: false,
        resources: Resources { mem: Mem(0), cpu: Cpu(0) },
        bind,
        args,
        vars: Vec::new(),
        arg: Vec::new(),
        binary,
    }
}

/// The request by which a node has the process started that joins it to the
/// others: it takes up no resources, has no addresses bound and is not waited for.
pub fn mesh_with<A, B>(args: Vec<Vec<u8>>, arg: A, binary: B) -> (r: FabricRequest<A, B>)
    ensures
        !r.block,
        r.resources == (Resources { mem: Mem(0), cpu: Cpu(0) }),
        r.bind@.len() == 0,
        r.args == args,
        r.vars@.len() == 0,
        r.arg == arg,
        r.binary == binary,
{
    FabricRequest {
        block: false,
        resources: Resources { mem: Mem(0), cpu: Cpu(0) },
        bind: Vec::new(),
        args,
        vars: Vec::new(),
        arg,
        binary,
    }
}

/// `bincode::serialize` of a number of 64 bits: its eight bytes, the lowest first.
#[verifier::external_body]
fn bincode_length(n: u64) -> (r: Vec<u8>)
    ensures
        r@ == spec_u64_to_le_bytes(n),
{
    bincode::serialize(&n).unwrap()
}

/// `bincode::deserialize` of a number of 64 bits: the first eight bytes, the
/// lowest first; `None` if there are fewer.
#[verifier::external_body]
fn bincode_read_length(bytes: &[u8]) -> (r: Option<u64>)
    ensures
        r == (if bytes@.len() >= 8 {
            Some(spec_u64_from_le_bytes(bytes@.take(8)))
        } else {
            None
        }),
{
    bincode::deserialize::<u64>(bytes).ok()
}

/// The contents of a file as they travel: their length, then they themselves.
pub open spec fn framed(contents: Seq<u8>) -> Seq<u8> {
    spec_u64_to_le_bytes(contents.len() as u64) + contents
}

/// The length of the contents that `bytes` start with; `None` if it has not come
/// in yet.
pub open spec fn frame_length(bytes: Seq<u8>) -> Option<u64> {
    if bytes.len() >= 8 {
        Some(spec_u64_from_le_bytes(bytes.take(8)))
    } else {
        None
    }
}

/// The contents of a file as they travel.
pub fn frame(contents: &Vec<u8>) -> (r: Vec<u8>)
    ensures
        r@ == framed(contents@),
{
    let mut r = bincode_length(contents.len() as u64);
    let ghost head = r@;
    for i in 0..contents.len()
        invariant
            r@ == head + contents@.take(i as int),
    {
        r.push(contents[i]);
        assert(r@ =~= head + contents@.take(i + 1));
    }
    assert(contents@.take(contents@.len() as int) =~= contents@);
    r
}

/// The contents that `bytes` start with, and where what follows them begins.
/// `None` if they have not come in whole.
pub fn unframe(bytes: &Vec<u8>) -> (r: Option<(Vec<u8>, usize)>)
    ensures
        match r {
            Some((contents, end)) => frame_length(bytes@) == Some(contents@.len() as u64) && end
                <= bytes.len() && bytes@.take(end as int).skip(8) == contents@ && end == 8
                + contents@.len(),
            None => frame_length(bytes@) matches Some(n) ==> bytes@.len() < 8 + n,
        },
{
    match bincode_read_length(bytes.as_slice()) {
        None => None,
        Some(n) => {
            if n > (bytes.len() - 8) as u64 {
                return None;
            }
            let end: usize = 8 + n as usize;
            let mut contents: Vec<u8> = Vec::new();
            for i in 8..end
                invariant
                    8 <= i <= end <= bytes.len(),
                    contents@ == bytes@.subrange(8, i as int),
            {
                contents.push(bytes[i]);
                assert(contents@ =~= bytes@.subrange(8, i + 1));
            }
            assert(bytes@.take(end as int).skip(8) =~= contents@);
            Some((contents, end))
        },
    }
}

/// A file arrives as it was sent, whatever follows it, and it is known where it
/// ends.
pub proof fn law_files_arrive_whole(contents: Seq<u8>, rest: Seq<u8>)
    requires
        contents.len() <= u64::MAX,
    ensures
        frame_length(framed(contents) + rest) == Some(contents.len() as u64),
        (framed(contents) + rest).take(8 + contents.len() as int).skip(8) == contents,
        (framed(contents) + rest).skip(8 + contents.len() as int) == rest,
{
    lemma_auto_spec_u64_to_from_le_bytes();
    let n = contents.len() as u64;
    let bytes = framed(contents) + rest;
    assert(spec_u64_to_le_bytes(n).len() == 8);
    assert(bytes.take(8) =~= spec_u64_to_le_bytes(n));
    assert(bytes.take(8 + contents.len() as int).skip(8) =~= contents);
    assert(bytes.skip(8 + contents.len() as int) =~= rest);
}

} // verus!
