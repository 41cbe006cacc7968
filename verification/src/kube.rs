//! A cluster on Kubernetes: which pods become which nodes.

use crate::net::{IpAddr, SocketAddr};
use crate::resources::{resources_default, Resources};
use crate::units::{Cpu, Mem};
use vstd::prelude::*;

verus! {

/// How many pods a cluster has.
pub const REPLICAS: usize = 10;

/// The port at which the master listens.
pub const MASTER_PORT: u16 = 12322;

/// The port at which the bridge of the master listens.
pub const BRIDGE_PORT: u16 = 12323;

/// The port at which each pod listens.
pub const POD_PORT: u16 = 32123;

/// How many times the default resources each node is taken to have.
pub const SHARE: u32 = 100;

/// A node of the cluster.
#[derive(Copy, Clone, PartialEq, Eq, Debug)]
pub struct KubeNode {
    pub fabric: SocketAddr,
    pub bridge: Option<SocketAddr>,
    pub mem: Mem,
    pub cpu: Cpu,
}

/// The memory that each node is taken to have.
pub open spec fn node_mem() -> Mem {
    Mem((resources_default().mem.0 * SHARE) as u64)
}

/// The processors that each node is taken to have.
pub open spec fn node_cpu() -> Cpu {
    Cpu((resources_default().cpu.0 * SHARE) as u32)
}

/// The node that a pod becomes.
pub open spec fn pod_node(ip: IpAddr) -> KubeNode {
    KubeNode {
        fabric: SocketAddr { ip, port: POD_PORT },
        bridge: None,
        mem: node_mem(),
        cpu: node_cpu(),
    }
}

/// The node on which the master itself runs. It has the bridge, at any address
/// of its machine.
pub open spec fn master_node(ip: IpAddr, fabric_port: u16) -> KubeNode {
    KubeNode {
        fabric: SocketAddr { ip, port: fabric_port },
        bridge: Some(SocketAddr { ip: IpAddr::V4(0), port: BRIDGE_PORT }),
        mem: node_mem(),
        cpu: node_cpu(),
    }
}

/// Whether a node listens at `fabric`.
pub open spec fn listens(nodes: Seq<KubeNode>, fabric: SocketAddr) -> bool {
    exists|i: int| 0 <= i < nodes.len() && (#[trigger] nodes[i]).fabric == fabric
}

/// The nodes that the pods at `ips` become, one for each address.
pub open spec fn pod_nodes(ips: Seq<IpAddr>) -> Seq<KubeNode>
    decreases ips.len(),
{
    if ips.len() == 0 {
        seq![]
    } else {
        let before = pod_nodes(ips.drop_last());
        let node = pod_node(ips.last());
        if listens(before, node.fabric) {
            before
        } else {
            before.push(node)
        }
    }
}

/// All nodes of the cluster: that of the master, and those of the pods that do
/// not have its address.
pub open spec fn cluster(ips: Seq<IpAddr>, master_ip: IpAddr, fabric_port: u16) -> Seq<KubeNode> {
    let master = master_node(master_ip, fabric_port);
    pod_nodes(ips).filter(|node: KubeNode| node.fabric != master.fabric).push(master)
}

/// Whether all pods of the cluster are there.
pub fn complete(ips: &Vec<IpAddr>) -> (r: bool)
    ensures
        r == (ips@.len() == REPLICAS),
{
    ips.len() == REPLICAS
}

fn is_listening(nodes: &Vec<KubeNode>, fabric: SocketAddr) -> (r: bool)
    ensures
        r == listens(nodes@, fabric),
{
    for i in 0..nodes.len()
        invariant
            forall|j: int| 0 <= j < i ==> (#[trigger] nodes@[j]).fabric != fabric,
    {
        if nodes[i].fabric == fabric {
            return true;
        }
    }
    false
}

/// All nodes of the cluster.
pub fn kube_nodes(ips: &Vec<IpAddr>, master_ip: IpAddr, fabric_port: u16) -> (r: Vec<KubeNode>)
    ensures
        r@ == cluster(ips@, master_ip, fabric_port),
{
    let share: Resources = Resources::default();
    let mem = Mem(share.mem.0 * SHARE as u64);
    let cpu = Cpu(share.cpu.0 * SHARE);
    let mut pods: Vec<KubeNode> = Vec::new();
    for i in 0..ips.len()
        invariant
            mem == node_mem(),
            cpu == node_cpu(),
            pods@ == pod_nodes(ips@.take(i as int)),
    {
        proof {
            assert(ips@.take(i + 1).drop_last() =~= ips@.take(i as int));
            assert(ips@.take(i + 1).last() == ips@[i as int]);
        }
        let fabric = SocketAddr { ip: ips[i], port: POD_PORT };
        if !is_listening(&pods, fabric) {
            pods.push(KubeNode { fabric, bridge: None, mem, cpu });
        }
    }
    assert(ips@.take(ips@.len() as int) =~= ips@);
    let master = KubeNode {
        fabric: SocketAddr { ip: master_ip, port: fabric_port },
        bridge: Some(SocketAddr { ip: IpAddr::V4(0), port: BRIDGE_PORT }),
        mem,
        cpu,
    };
    assert(master == master_node(master_ip, fabric_port));
    let ghost keep = |node: KubeNode| node.fabric != master.fabric;
    let mut r: Vec<KubeNode> = Vec::new();
    assert(pods@.take(0).filter(keep) =~= seq![]) by {
        reveal(Seq::filter);
    }
    for i in 0..pods.len()
        invariant
            keep == (|node: KubeNode| node.fabric != master.fabric),
            r@ == pods@.take(i as int).filter(keep),
    {
        proof {
            let some = pods@.take(i + 1);
            assert(some.drop_last() =~= pods@.take(i as int));
            assert(some.last() == pods@[i as int]);
            reveal(Seq::filter);
        }
        if pods[i].fabric != master.fabric {
            r.push(pods[i]);
        }
    }
    assert(pods@.take(pods@.len() as int) =~= pods@);
    r.push(master);
    r
}

proof fn lemma_pods(ips: Seq<IpAddr>)
    ensures
        forall|i: int, j: int|
            0 <= i < j < pod_nodes(ips).len() ==> (#[trigger] pod_nodes(ips)[i]).fabric != (
            #[trigger] pod_nodes(ips)[j]).fabric,
        forall|i: int|
            0 <= i < ips.len() ==> listens(
                pod_nodes(ips),
                (SocketAddr { ip: #[trigger] ips[i], port: POD_PORT }),
            ),
    decreases ips.len(),
{
    if ips.len() > 0 {
        let first = ips.drop_last();
        let before = pod_nodes(first);
        let nodes = pod_nodes(ips);
        let node = pod_node(ips.last());
        lemma_pods(first);
        if !listens(before, node.fabric) {
            assert forall|i: int, j: int| 0 <= i < j < nodes.len() implies (#[trigger] nodes[i]).fabric
                != (#[trigger] nodes[j]).fabric by {
                assert(before[i].fabric != node.fabric);
            }
        }
        assert forall|i: int| 0 <= i < ips.len() implies listens(
            nodes,
            (SocketAddr { ip: #[trigger] ips[i], port: POD_PORT }),
        ) by {
            let fabric = SocketAddr { ip: ips[i], port: POD_PORT };
            if i < ips.len() - 1 {
                assert(first[i] == ips[i]);
                assert(listens(before, fabric));
                let k = choose|k: int| 0 <= k < before.len() && (#[trigger] before[k]).fabric == fabric;
                assert(nodes[k] == before[k]);
            } else if !listens(before, node.fabric) {
                assert(nodes[nodes.len() - 1].fabric == fabric);
            }
        }
    }
}

/// Each pod becomes a node of the cluster, unless it has the address of the
/// master, which is one too.
pub proof fn law_every_pod_takes_part(
    ips: Seq<IpAddr>,
    master_ip: IpAddr,
    fabric_port: u16,
    i: int,
)
    requires
        0 <= i < ips.len(),
    ensures
        listens(
            cluster(ips, master_ip, fabric_port),
            (SocketAddr { ip: ips[i], port: POD_PORT }),
        ),
        cluster(ips, master_ip, fabric_port).contains(master_node(master_ip, fabric_port)),
{
    let pods = pod_nodes(ips);
    let master = master_node(master_ip, fabric_port);
    let keep = |node: KubeNode| node.fabric != master.fabric;
    let nodes = cluster(ips, master_ip, fabric_port);
    let fabric = SocketAddr { ip: ips[i], port: POD_PORT };
    assert(nodes.last() == master);
    assert(nodes[nodes.len() - 1] == master);
    lemma_pods(ips);
    if fabric != master.fabric {
        let k = choose|k: int| 0 <= k < pods.len() && (#[trigger] pods[k]).fabric == fabric;
        assert(pods[k].fabric == fabric);
        assert(keep(pods[k]));
        broadcast use vstd::seq_lib::group_filter_ensures;

        assert(pods.filter(keep).contains(pods[k]));
        let m = choose|m: int| 0 <= m < pods.filter(keep).len() && pods.filter(keep)[m] == pods[k];
        assert(nodes[m] == pods[k]);
    }
}

proof fn lemma_pods_are_pods(ips: Seq<IpAddr>)
    ensures
        forall|k: int|
            0 <= k < pod_nodes(ips).len() ==> (#[trigger] pod_nodes(ips)[k]).bridge is None && ips.contains(
                pod_nodes(ips)[k].fabric.ip,
            ) && pod_nodes(ips)[k].fabric.port == 32123 && pod_nodes(ips)[k].mem.0 == 100
                * resources_default().mem.0 && pod_nodes(ips)[k].cpu.0 == 100
                * resources_default().cpu.0,
    decreases ips.len(),
{
    if ips.len() > 0 {
        let first = ips.drop_last();
        lemma_pods_are_pods(first);
        let nodes = pod_nodes(ips);
        assert forall|k: int| 0 <= k < nodes.len() implies (#[trigger] nodes[k]).bridge is None && ips.contains(
            nodes[k].fabric.ip,
        ) && nodes[k].fabric.port == 32123 && nodes[k].mem.0 == 100 * resources_default().mem.0
            && nodes[k].cpu.0 == 100 * resources_default().cpu.0 by {
            if k < pod_nodes(first).len() {
                assert(nodes[k] == pod_nodes(first)[k]);
                let i = first.index_of(nodes[k].fabric.ip);
                assert(ips[i] == first[i]);
            } else {
                assert(ips[ips.len() - 1] == nodes[k].fabric.ip);
            }
        }
    }
}

/// No node of the cluster is listed twice; the last is that of the master, which
/// alone has a bridge, and each other is a pod. All have a hundred times what a
/// process asks for by default.
pub proof fn law_nodes_of_a_cluster(
    ips: Seq<IpAddr>,
    master_ip: IpAddr,
    fabric_port: u16,
    i: int,
    j: int,
)
    requires
        0 <= i < j < cluster(ips, master_ip, fabric_port).len(),
    ensures
        ({
            let nodes = cluster(ips, master_ip, fabric_port);
            let master = nodes.last();
            &&& nodes[i].fabric != nodes[j].fabric
            &&& nodes[i].bridge is None
            &&& ips.contains(nodes[i].fabric.ip)
            &&& nodes[i].fabric.port == 32123
            &&& nodes[i].mem.0 == 100 * resources_default().mem.0
            &&& nodes[i].cpu.0 == 100 * resources_default().cpu.0
            &&& master.fabric == (SocketAddr { ip: master_ip, port: fabric_port })
            &&& master.bridge == Some(SocketAddr { ip: IpAddr::V4(0), port: 12323 })
            &&& master.mem == nodes[i].mem
            &&& master.cpu == nodes[i].cpu
        }),
{
    broadcast use vstd::seq_lib::group_filter_ensures;

    let pods = pod_nodes(ips);
    let master = master_node(master_ip, fabric_port);
    let keep = |node: KubeNode| node.fabric != master.fabric;
    let rest = pods.filter(keep);
    let nodes = cluster(ips, master_ip, fabric_port);
    assert(nodes =~= rest.push(master));
    lemma_pods(ips);
    lemma_pods_are_pods(ips);
    lemma_filter_distinct(pods, keep);
    assert(rest.contains(rest[i]));
    pods.lemma_filter_contains_rev(keep, rest[i]);
    let k = pods.index_of(rest[i]);
    assert(pods[k] == rest[i]);
    assert(keep(rest[i]));
    if j < rest.len() {
        assert(rest[i].fabric != rest[j].fabric);
    }
}

proof fn lemma_filter_distinct(nodes: Seq<KubeNode>, keep: spec_fn(KubeNode) -> bool)
    requires
        forall|i: int, j: int|
            0 <= i < j < nodes.len() ==> (#[trigger] nodes[i]).fabric != (#[trigger] nodes[j]).fabric,
    ensures
        forall|i: int, j: int|
            0 <= i < j < nodes.filter(keep).len() ==> (#[trigger] nodes.filter(keep)[i]).fabric != (
            #[trigger] nodes.filter(keep)[j]).fabric,
    decreases nodes.len(),
{
    broadcast use vstd::seq_lib::group_filter_ensures;

    reveal(Seq::filter);
    if nodes.len() > 0 {
        let first = nodes.drop_last();
        let last = nodes.last();
        lemma_filter_distinct(first, keep);
        let kept = first.filter(keep);
        let all = nodes.filter(keep);
        assert forall|i: int, j: int| 0 <= i < j < all.len() implies (#[trigger] all[i]).fabric != (
        #[trigger] all[j]).fabric by {
            if j >= kept.len() {
                assert(all[i] == kept[i]);
                assert(kept.contains(kept[i]));
                first.lemma_filter_contains_rev(keep, kept[i]);
                let k = first.index_of(kept[i]);
                assert(nodes[k] == kept[i]);
                assert(nodes[nodes.len() - 1] == last);
            }
        }
    }
}

} // verus!
