//! How a node starts the process that joins it to the others.

use crate::args::Role;
use crate::net::IpAddr;
use crate::text::decimal_text;
use crate::units::Mem;
use vstd::prelude::*;
use vstd::utf8::encode_utf8;

verus! {

/// A node, as the process is told of it: its address, that of its bridge, if it
/// has one, its memory, and its processor time in words.
#[derive(Debug)]
pub struct MeshNode {
    pub fabric: String,
    pub bridge: Option<String>,
    pub mem: Mem,
    pub cpu: String,
}

/// What the process is to do. Both have an address to bind and a key, in words.
#[derive(Debug)]
pub enum MeshRole {
    Master { bind: String, key: String, nodes: Vec<MeshNode> },
    Worker { bind: String, key: String },
}

/// What is said of a node.
pub open spec fn node_words(node: MeshNode) -> Seq<Seq<u8>> {
    seq![
        encode_utf8(node.fabric@),
        encode_utf8(
            match node.bridge {
                Some(bridge) => bridge@,
                None => "-"@,
            },
        ),
        encode_utf8(decimal_text(node.mem.0 as nat).push('B')),
        encode_utf8(node.cpu@),
    ]
}

/// What is said of several nodes, one after another.
pub open spec fn all_words(nodes: Seq<MeshNode>) -> Seq<Seq<u8>>
    decreases nodes.len(),
{
    if nodes.len() == 0 {
        seq![]
    } else {
        all_words(nodes.drop_last()) + node_words(nodes.last())
    }
}

/// The arguments of the process: the program, what it is to do, the address to
/// bind, the key, and of a master each node.
pub open spec fn told(exe: Seq<u8>, role: MeshRole) -> Seq<Seq<u8>> {
    match role {
        MeshRole::Master { bind, key, nodes } => seq![
            exe,
            encode_utf8("mesh-master"@),
            encode_utf8(bind@),
            encode_utf8(key@),
        ] + all_words(nodes@),
        MeshRole::Worker { bind, key } => seq![
            exe,
            encode_utf8("mesh-worker"@),
            encode_utf8(bind@),
            encode_utf8(key@),
        ],
    }
}

/// Arguments, as they are told of.
pub open spec fn word_views(words: Seq<Vec<u8>>) -> Seq<Seq<u8>> {
    words.map_values(|word: Vec<u8>| word@)
}

fn first_words(exe: Vec<u8>, what: &str, bind: &String, key: &String) -> (r: Vec<Vec<u8>>)
    ensures
        word_views(r@) == seq![exe@, encode_utf8(what@), encode_utf8(bind@), encode_utf8(key@)],
{
    let mut r: Vec<Vec<u8>> = Vec::new();
    r.push(exe);
    r.push(what.as_bytes_vec());
    r.push(bind.as_str().as_bytes_vec());
    r.push(key.as_str().as_bytes_vec());
    assert(word_views(r@) =~= seq![
        exe@,
        encode_utf8(what@),
        encode_utf8(bind@),
        encode_utf8(key@),
    ]);
    r
}

/// The arguments of the process.
pub fn mesh_arguments(exe: Vec<u8>, role: &MeshRole) -> (r: Vec<Vec<u8>>)
    ensures
        word_views(r@) == told(exe@, *role),
{
    match role {
        MeshRole::Master { bind, key, nodes } => {
            let mut r = first_words(exe, "mesh-master", bind, key);
            let ghost first = word_views(r@);
            assert(nodes@.take(0) =~= seq![]);
            assert(first + all_words(nodes@.take(0)) =~= first);
            for i in 0..nodes.len()
                invariant
                    word_views(r@) == first + all_words(nodes@.take(i as int)),
            {
                let node = &nodes[i];
                let ghost before = r@;
                r.push(node.fabric.as_str().as_bytes_vec());
                match &node.bridge {
                    Some(bridge) => {
                        r.push(bridge.as_str().as_bytes_vec());
                    },
                    None => {
                        r.push("-".as_bytes_vec());
                    },
                }
                r.push(node.mem.to_string().as_str().as_bytes_vec());
                r.push(node.cpu.as_str().as_bytes_vec());
                proof {
                    assert(nodes@.take(i + 1).drop_last() =~= nodes@.take(i as int));
                    assert(word_views(r@) =~= word_views(before) + node_words(*node));
                    assert(word_views(r@) =~= first + all_words(nodes@.take(i + 1)));
                }
            }
            assert(nodes@.take(nodes@.len() as int) =~= nodes@);
            r
        },
        MeshRole::Worker { bind, key } => first_words(exe, "mesh-worker", bind, key),
    }
}

/// The address of this node in the cluster, as the process is told it: a master is
/// the first of its nodes, and a worker does not know yet.
pub fn cluster_ip(role: &Role) -> (r: IpAddr)
    requires
        match *role {
            Role::Master(_, nodes) => nodes@.len() > 0,
            Role::Worker(_) => true,
            _ => false,
        },
    ensures
        r == (match *role {
            Role::Master(_, nodes) => nodes@[0].fabric.ip,
            _ => IpAddr::V4(0),
        }),
{
    match role {
        Role::Master(_, nodes) => nodes[0].fabric.ip,
        _ => IpAddr::V4(0),
    }
}

/// Each node takes four arguments, so that the process can tell them apart.
pub proof fn law_four_words_each(nodes: Seq<MeshNode>, i: int)
    requires
        0 <= i < nodes.len(),
    ensures
        all_words(nodes).len() == 4 * nodes.len(),
        all_words(nodes).subrange(4 * i, 4 * i + 4) == node_words(nodes[i]),
    decreases nodes.len(),
{
    let rest = nodes.drop_last();
    if rest.len() > 0 {
        law_four_words_each(rest, 0);
        if i < rest.len() {
            law_four_words_each(rest, i);
            assert(all_words(nodes).subrange(4 * i, 4 * i + 4) =~= all_words(rest).subrange(
                4 * i,
                4 * i + 4,
            ));
        }
    }
    assert(all_words(rest).len() == 4 * rest.len());
    if i == rest.len() {
        assert(all_words(nodes).subrange(4 * i, 4 * i + 4) =~= node_words(nodes[i]));
    }
}

/// The process is told the program first, and of each node where it listens, where
/// its bridge is bound to or a dash, its memory and its processor time, in this
/// order.
pub proof fn law_what_is_said_of_a_node(
    exe: Seq<u8>,
    bind: String,
    key: String,
    nodes: Vec<MeshNode>,
    i: int,
)
    requires
        0 <= i < nodes@.len(),
    ensures
        ({
            let words = told(exe, MeshRole::Master { bind, key, nodes });
            let node = nodes@[i];
            &&& words.len() == 4 + 4 * nodes@.len()
            &&& words[0] == exe
            &&& words[2] == encode_utf8(bind@)
            &&& words[3] == encode_utf8(key@)
            &&& words[4 + 4 * i] == encode_utf8(node.fabric@)
            &&& node.bridge is Some ==> words[5 + 4 * i] == encode_utf8(node.bridge->0@)
            &&& node.bridge is None ==> words[5 + 4 * i] == encode_utf8("-"@)
            &&& words[6 + 4 * i] == encode_utf8(decimal_text(node.mem.0 as nat) + seq!['B'])
            &&& words[7 + 4 * i] == encode_utf8(node.cpu@)
        }),
{
    law_four_words_each(nodes@, i);
    let words = told(exe, MeshRole::Master { bind, key, nodes });
    let part = all_words(nodes@).subrange(4 * i, 4 * i + 4);
    assert(part[0] == all_words(nodes@)[4 * i]);
    assert(part[1] == all_words(nodes@)[4 * i + 1]);
    assert(part[2] == all_words(nodes@)[4 * i + 2]);
    assert(part[3] == all_words(nodes@)[4 * i + 3]);
    assert(decimal_text(nodes@[i].mem.0 as nat).push('B') =~= decimal_text(
        nodes@[i].mem.0 as nat,
    ) + seq!['B']);
}

} // verus!
