use constellation::args::{
    Arg, Args, Node, Role, BAD_FORMAT, BAD_NODE, DESCRIPTION, HELP, NO_NODES, USAGE, VERBOSE_HELP,
    VERSION,
};
use constellation::envs::Format;
use constellation::net::{IpAddr, SocketAddr};

fn addr(text: &str) -> SocketAddr {
    parsed(text).unwrap()
}

fn parsed(text: &str) -> Option<SocketAddr> {
    let (host, port) = text.split_once(':')?;
    let mut ip: u32 = 0;
    let mut parts = 0;
    for part in host.split('.') {
        ip = ip * 256 + u32::from(part.parse::<u8>().ok()?);
        parts += 1;
    }
    if parts != 4 {
        return None;
    }
    Some(SocketAddr {
        ip: IpAddr::V4(ip),
        port: port.parse().ok()?,
    })
}

fn from_args(args: &[&'static str]) -> Result<Args, (String, bool)> {
    let args = args
        .iter()
        .map(|arg| Arg {
            text: String::from(*arg),
            addr: parsed(arg),
        })
        .collect::<Vec<_>>();
    Args::from_args(&args)
}

#[test]
fn arg_parsing() {
    assert_eq!(
        from_args(&[]),
        Err((format!("{}\n{}\n{}", DESCRIPTION, USAGE, HELP), false))
    );
    assert_eq!(
        from_args(&["--format=json"]),
        Err((format!("{}\n{}\n{}", DESCRIPTION, USAGE, HELP), false))
    );
    assert_eq!(
        from_args(&["--format", "json"]),
        Err((format!("{}\n{}\n{}", DESCRIPTION, USAGE, HELP), false))
    );
    assert_eq!(
        from_args(&["-h"]),
        Err((format!("{}\n{}\n{}", DESCRIPTION, USAGE, HELP), true))
    );
    assert_eq!(
        from_args(&["10.0.0.1:8888"]),
        Ok(Args {
            format: Format::Human,
            verbose: false,
            role: Role::Worker(addr("10.0.0.1:8888"))
        })
    );
    assert_eq!(
        from_args(&["--format", "json", "10.0.0.1:8888"]),
        Ok(Args {
            format: Format::Json,
            verbose: false,
            role: Role::Worker(addr("10.0.0.1:8888"))
        })
    );
    assert_eq!(
        from_args(&["--format=json", "10.0.0.1:8888"]),
        Ok(Args {
            format: Format::Json,
            verbose: false,
            role: Role::Worker(addr("10.0.0.1:8888"))
        })
    );
    assert_eq!(
        from_args(&[
            "--format=json",
            "10.0.0.1:8888",
            "10.0.0.1:8888",
            "10.0.0.1:7777",
            "400GiB",
            "34",
        ]),
        Ok(Args {
            format: Format::Json,
            verbose: false,
            role: Role::Master(
                addr("10.0.0.1:8888"),
                vec![Node {
                    fabric: addr("10.0.0.1:8888"),
                    bridge: Some(addr("10.0.0.1:7777")),
                    mem: 400 * 1024 * 1024 * 1024,
                    cpu: 34 * 65536,
                }]
            )
        })
    );
    assert_eq!(
        from_args(&[
            "--format=json",
            "10.0.0.1:8888",
            "10.0.0.1:8888",
            "10.0.0.1:7777",
            "400GiB",
            "34",
            "10.0.0.1:8888",
            "-",
            "400GiB",
            "34",
        ]),
        Ok(Args {
            format: Format::Json,
            verbose: false,
            role: Role::Master(
                addr("10.0.0.1:8888"),
                vec![
                    Node {
                        fabric: addr("10.0.0.1:8888"),
                        bridge: Some(addr("10.0.0.1:7777")),
                        mem: 400 * 1024 * 1024 * 1024,
                        cpu: 34 * 65536,
                    },
                    Node {
                        fabric: addr("10.0.0.1:8888"),
                        bridge: None,
                        mem: 400 * 1024 * 1024 * 1024,
                        cpu: 34 * 65536,
                    }
                ]
            )
        })
    );
}

#[test]
fn version_and_help() {
    assert_eq!(from_args(&["-V"]), Err((VERSION.to_string(), true)));
    assert_eq!(
        from_args(&["--help", "-v"]),
        Err((format!("{}\n{}\n{}", DESCRIPTION, USAGE, VERBOSE_HELP), true))
    );
}

#[test]
fn arguments_that_make_no_sense() {
    assert_eq!(
        from_args(&["--format=xml", "10.0.0.1:8888"]),
        Err((format!("{}{}", BAD_FORMAT, USAGE), false))
    );
    assert_eq!(
        from_args(&["10.0.0.1:8888", "10.0.0.1:8888", "-", "400GiB"]),
        Err((format!("{}{}", BAD_NODE, USAGE), false))
    );
    assert_eq!(
        from_args(&["nowhere"]),
        Err((
            format!(
                "Invalid option \"nowhere\", expecting an address to bind to, like 127.0.0.1:9999\n{}",
                USAGE
            ),
            false
        ))
    );
}

#[test]
fn nodes_from_a_file() {
    let args = from_args(&["10.0.0.1:8888", "nodes.toml"]).unwrap();
    assert_eq!(
        args.role,
        Role::MasterFile(addr("10.0.0.1:8888"), String::from("nodes.toml"))
    );
    let node = Node {
        fabric: addr("10.0.0.1:8888"),
        bridge: None,
        mem: 1,
        cpu: 2,
    };
    let args = args
        .with_file(constellation::args::listed_nodes(vec![node]))
        .unwrap();
    assert_eq!(args.role, Role::Master(addr("10.0.0.1:8888"), vec![node]));
    assert_eq!(
        constellation::args::listed_nodes(vec![]),
        Err(String::from(NO_NODES))
    );
}

#[test]
fn a_size_that_cannot_be_told() {
    let args = ["10.0.0.1:8888", "10.0.0.1:8888", "-", "GiB", "34"]
        .iter()
        .map(|arg| Arg {
            text: String::from(*arg),
            addr: parsed(arg),
        })
        .collect::<Vec<_>>();
    assert!(Args::try_from_args(&args).is_none());
}
