use constellation::args::{Node, Role};
use constellation::cargo::{
    build_arguments, passed_code, sole_binary, Artifact, ArtifactProfile, BinaryError, Message,
};
use constellation::descriptors::{listed_fd, move_fds, Move, ARG_FD, LISTENER_FD};
use constellation::envs::{find, EnvVar, Envs, Family, Format, Topic};
use constellation::kube::{complete, kube_nodes, KubeNode};
use constellation::launch::{
    closes_for_recce, closes_natively, entry, fabric_environment, native_environment,
    native_placements, parse_arguments, parse_entry, parse_environment, recce_environment,
    recce_placements, Given,
};
use constellation::mesh::{cluster_ip, mesh_arguments, MeshNode, MeshRole};
use constellation::msg::mesh_with;
use constellation::net::{IpAddr, SocketAddr};
use constellation::units::{Cpu, Mem};

fn var(key: &str, value: &str) -> EnvVar {
    EnvVar {
        key: String::from(key),
        value: Some(String::from(value)),
    }
}

fn lines(vars: &[EnvVar]) -> Vec<String> {
    vars.iter().map(entry).collect()
}

#[test]
fn the_environment_of_a_placed_process() {
    let vars = vec![
        var("HOME", "/"),
        var("CONSTELLATION", "nowhere"),
        var("CONSTELLATION_RESOURCES", "none"),
        var("CONSTELLATION_FORMAT", "json"),
    ];
    let environment = fabric_environment(Family::Constellation, "{}", vars);
    assert_eq!(
        lines(&environment),
        vec![
            "CONSTELLATION=fabric",
            "CONSTELLATION_RESOURCES={}",
            "HOME=/",
            "CONSTELLATION_FORMAT=json",
        ]
    );
    assert_eq!(
        find(&environment, Family::Constellation, Topic::Resources),
        Some(Some(String::from("{}")))
    );
}

#[test]
fn the_deploy_family_keeps_all_variables() {
    let vars = vec![var("DEPLOY", "nowhere"), var("HOME", "/")];
    let environment = fabric_environment(Family::Deploy, "{}", vars);
    assert_eq!(
        lines(&environment),
        vec!["DEPLOY=fabric", "DEPLOY_RESOURCES={}", "DEPLOY=nowhere", "HOME=/"]
    );
    assert_eq!(
        find(&environment, Family::Deploy, Topic::Deploy),
        Some(Some(String::from("fabric")))
    );
}

#[test]
fn the_environment_of_a_program_that_is_asked() {
    let vars = vec![var("CONSTELLATION_RECCE", "0"), var("A", "b=c")];
    let environment = recce_environment(Family::Constellation, vars);
    assert_eq!(
        lines(&environment),
        vec![
            "CONSTELLATION=fabric",
            "CONSTELLATION_RECCE=1",
            "CONSTELLATION_RECCE=0",
            "A=b=c",
        ]
    );
    assert_eq!(
        Envs::from(&environment, Family::Constellation, None).recce,
        Some(Some(true))
    );
}

#[test]
fn the_environment_of_a_process_beside_its_parent() {
    let environment = native_environment(Family::Deploy, "{}", vec![var("A", "b")]);
    assert_eq!(lines(&environment), vec!["A=b", "DEPLOY_RESOURCES={}"]);
}

#[test]
fn a_process_beside_its_parent_has_its_own_resources() {
    for (family, name) in [
        (Family::Constellation, "CONSTELLATION_RESOURCES"),
        (Family::Deploy, "DEPLOY_RESOURCES"),
    ] {
        let child = native_environment(family, "1", vec![var("A", "b"), var("C", "d")]);
        let grandchild = native_environment(family, "2", child);
        assert_eq!(
            lines(&grandchild),
            vec![String::from("A=b"), String::from("C=d"), format!("{}=2", name)]
        );
        assert_eq!(
            find(&grandchild, family, Topic::Resources),
            Some(Some(String::from("2")))
        );
    }
}

#[test]
fn what_a_mesh_process_is_told() {
    let node = |fabric: &str, bridge: Option<&str>| MeshNode {
        fabric: String::from(fabric),
        bridge: bridge.map(String::from),
        mem: Mem(1024),
        cpu: String::from("1.5"),
    };
    let text = |role: &MeshRole| {
        mesh_arguments(b"exe".to_vec(), role)
            .into_iter()
            .map(|word| String::from_utf8(word).unwrap())
            .collect::<Vec<_>>()
            .join(" ")
    };
    let master = MeshRole::Master {
        bind: String::from("10.0.0.1:9"),
        key: String::from("k"),
        nodes: vec![node("10.0.0.1:9", Some("10.0.0.1:8")), node("10.0.0.2:9", None)],
    };
    assert_eq!(
        text(&master),
        "exe mesh-master 10.0.0.1:9 k 10.0.0.1:9 10.0.0.1:8 1024B 1.5 10.0.0.2:9 - 1024B 1.5"
    );
    let worker = MeshRole::Worker {
        bind: String::from("10.0.0.2:9"),
        key: String::from("k"),
    };
    assert_eq!(text(&worker), "exe mesh-worker 10.0.0.2:9 k");
    let at = |n: u32| SocketAddr {
        ip: IpAddr::V4(n),
        port: 9,
    };
    let nodes = vec![Node {
        fabric: at(7),
        bridge: None,
        mem: 1,
        cpu: 1,
    }];
    assert_eq!(cluster_ip(&Role::Master(at(1), nodes)), IpAddr::V4(7));
    assert_eq!(cluster_ip(&Role::Worker(at(1))), IpAddr::V4(0));
    let request = mesh_with(vec![b"exe".to_vec()], 1, 2);
    assert!(!request.block);
    assert_eq!((request.resources.mem, request.resources.cpu), (Mem(0), Cpu(0)));
    assert!(request.bind.is_empty() && request.vars.is_empty());
    assert_eq!((request.arg, request.binary), (1, 2));
}

#[test]
fn the_first_variable_counts() {
    let vars = vec![
        var("CONSTELLATION_FORMAT", "JSON"),
        var("CONSTELLATION_FORMAT", "human"),
        EnvVar { key: String::from("CONSTELLATION_VERSION"), value: None },
    ];
    let envs = Envs::from(&vars, Family::Constellation, None);
    assert_eq!(envs.format, Some(Some(Format::Json)));
    assert_eq!(envs.version, Some(None));
    assert_eq!(envs.recce, None);
    assert_eq!(envs.resources, None);
    assert_eq!(Format::from_text("xml"), None);
}

#[test]
fn what_the_system_shows_of_a_process() {
    let shown = b"prog\0-v\0\0last\0".to_vec();
    assert_eq!(
        parse_arguments(&shown),
        vec![b"prog".to_vec(), b"-v".to_vec(), b"".to_vec(), b"last".to_vec()]
    );
    assert_eq!(parse_arguments(&vec![]), vec![b"".to_vec()]);
    let vars = parse_environment(&b"A=b\0junk\0=C=d\0E==\0".to_vec());
    let vars: Vec<_> = vars.into_iter().map(|v| (v.key, v.value)).collect();
    assert_eq!(
        vars,
        vec![
            (b"A".to_vec(), b"b".to_vec()),
            (b"=C".to_vec(), b"d".to_vec()),
            (b"E".to_vec(), b"=".to_vec()),
        ]
    );
    assert!(parse_entry(&b"=".to_vec()).is_none());
    assert!(parse_entry(&vec![]).is_none());
}

fn mv(from: i32, to: i32) -> Move {
    Move { from, to }
}

#[test]
fn descriptors_are_moved_in_an_order_that_loses_none() {
    assert_eq!(
        move_fds(vec![mv(4, 3), mv(5, 4), mv(9, 5)]),
        Some(vec![mv(4, 3), mv(5, 4), mv(9, 5)])
    );
    assert_eq!(
        move_fds(vec![mv(3, 4), mv(4, 5)]),
        Some(vec![mv(4, 5), mv(3, 4)])
    );
    assert_eq!(move_fds(vec![mv(3, 3)]), Some(vec![]));
    assert_eq!(move_fds(vec![mv(3, 4), mv(4, 3)]), None);
}

#[test]
fn the_descriptors_of_a_placed_process() {
    let given = Given { host: Some((20, 21)), binary: Some(22), bound: 2 };
    assert_eq!(
        given.placements(10, 11),
        vec![mv(10, LISTENER_FD), mv(11, ARG_FD), mv(20, 5), mv(21, 6), mv(22, 9)]
    );
    assert_eq!((given.bound_fd(0), given.bound_fd(1)), (7, 8));
    assert_eq!(given.binary_fd(), Some(9));
    assert!(!given.closes(6));
    assert!(given.closes(7));
    assert!(!given.closes(9));
    assert!(given.closes(1023));
    assert!(!given.closes(1024));
    let bare = Given { host: None, binary: None, bound: 0 };
    assert_eq!(bare.placements(3, 4), vec![mv(3, 3), mv(4, 4)]);
    assert_eq!(bare.binary_fd(), None);
    assert!(bare.closes(5));
}

#[test]
fn the_descriptors_of_other_processes() {
    assert!(!closes_natively(2, 10, 11, None));
    assert!(closes_natively(3, 10, 11, None));
    assert!(!closes_natively(10, 10, 11, None));
    assert!(!closes_natively(11, 10, 11, None));
    assert!(!closes_natively(500, 10, 11, Some(500)));
    assert!(closes_natively(499, 10, 11, Some(500)));
    assert_eq!(native_placements(10, 11), vec![mv(10, 3), mv(11, 4)]);
    assert_eq!(native_placements(3, 4), vec![]);
    assert!(closes_for_recce(0, 8, 9));
    assert!(!closes_for_recce(8, 8, 9));
    assert_eq!(recce_placements(8, 9), vec![mv(9, 3), mv(8, 4)]);
}

fn artifact(kind: &str, files: &[&str]) -> Message {
    Message::CompilerArtifact {
        artifact: Artifact {
            package_id: String::from("p"),
            kind: vec![String::from(kind)],
            profile: ArtifactProfile {
                opt_level: String::from("0"),
                debuginfo: None,
                debug_assertions: true,
                overflow_checks: true,
                test: false,
            },
            features: vec![],
            filenames: files.iter().map(|f| String::from(*f)).collect(),
            fresh: false,
        },
    }
}

#[test]
fn a_build_gives_one_binary() {
    let lib = artifact("lib", &["a", "b"]);
    let bin = artifact("bin", &["prog"]);
    assert_eq!(
        sole_binary(&vec![lib.clone(), Message::BuildScriptExecuted {}, bin.clone()]),
        Ok(String::from("prog"))
    );
    assert_eq!(sole_binary(&vec![lib]), Err(BinaryError::NoBinary));
    assert_eq!(sole_binary(&vec![bin.clone(), bin.clone()]), Err(BinaryError::Several));
    assert_eq!(
        sole_binary(&vec![artifact("bin", &["prog", "prog.dbg"])]),
        Err(BinaryError::NotOneFile)
    );
    assert_eq!(
        build_arguments(&vec![String::from("10.0.0.1:8888"), String::from("--release")]),
        vec!["build", "--message-format=json", "--release"]
    );
    assert_eq!(passed_code(Some(3)), 3);
    assert_eq!(passed_code(None), 101);
}

#[test]
fn pods_become_nodes() {
    let ips: Vec<IpAddr> = vec![IpAddr::V4(1), IpAddr::V4(2), IpAddr::V4(1)];
    assert!(!complete(&ips));
    assert!(complete(&(0..10).map(IpAddr::V4).collect()));
    let nodes = kube_nodes(&ips, IpAddr::V4(9), 4444);
    let mem = Mem(100 * 100 * Mem::MIB);
    let cpu = Cpu(100 * Cpu::CORE / 16);
    let pod = |ip| KubeNode {
        fabric: SocketAddr { ip: IpAddr::V4(ip), port: 32123 },
        bridge: None,
        mem,
        cpu,
    };
    let master = KubeNode {
        fabric: SocketAddr { ip: IpAddr::V4(9), port: 4444 },
        bridge: Some(SocketAddr { ip: IpAddr::V4(0), port: 12323 }),
        mem,
        cpu,
    };
    assert_eq!(nodes, vec![pod(1), pod(2), master]);
    let nodes = kube_nodes(&ips, IpAddr::V4(2), 32123);
    assert_eq!(nodes.len(), 2);
    assert_eq!(nodes[0], pod(1));
    assert!(nodes[1].bridge.is_some());
}

#[test]
fn descriptors_in_a_directory() {
    assert_eq!(listed_fd("7", 3), Some(7));
    assert_eq!(listed_fd("3", 3), None);
    assert_eq!(listed_fd(".", 3), None);
    assert_eq!(listed_fd("..", 3), None);
    assert_eq!(listed_fd("", 3), None);
    assert_eq!(listed_fd("+7", 3), Some(7));
    assert_eq!(listed_fd("-", 3), None);
    assert_eq!(listed_fd("7x", 3), None);
    assert_eq!(listed_fd("2147483647", 3), Some(i32::MAX));
    assert_eq!(listed_fd("2147483648", 3), None);
    assert_eq!(listed_fd("-2147483648", 3), Some(i32::MIN));
}
