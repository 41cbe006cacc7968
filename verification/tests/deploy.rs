use constellation::console::Output;
use constellation::deploy::args::{Role, Stop, Word, USAGE, VERSION};
use constellation::deploy::exit::{Exited, FirstFailure};
use constellation::deploy::format::{DeployOutputEvent, Formatter};
use constellation::deploy::pid::{colour, pretty_pid, Pid};
use constellation::deploy::size::{parse_binary_size, try_parse_binary_size};
use constellation::deploy::start::{absolute, relative};
use constellation::exit::Signal;
use constellation::net::{IpAddr, SocketAddr};
use constellation::style::StyleSupport;

#[test]
fn an_identifier_tells_its_address() {
    let pid = Pid::new(IpAddr::V4(0x0a00_0102), 0x1f90);
    assert_eq!(pid.0[..6], [10, 0, 1, 2, 0x1f, 0x90]);
    assert_eq!(pid.0[6..], [0; 10]);
    assert_eq!(
        pid.addr(),
        SocketAddr {
            ip: IpAddr::V4(0x0a00_0102),
            port: 0x1f90
        }
    );
    assert!(pid.same(&pid));
    assert!(!pid.same(&Pid::new(IpAddr::V4(0x0a00_0102), 0x1f91)));
}

#[test]
fn an_identifier_is_shown_encrypted() {
    let pid = Pid([0; 16]);
    assert_eq!(
        pid.format().iter().collect::<String>(),
        "66e94bd4ef8a2c3b884cfa59ca342b2e"
    );
    assert_eq!(pid.to_string(), "66e94bd");
    let other = Pid::new(IpAddr::V4(0x7f00_0001), 80);
    assert!(!Pid(other.encrypted()).same(&other));
    assert!(Pid::decrypted(other.encrypted()).same(&other));
}

#[test]
fn a_process_keeps_its_colour() {
    let seed = Pid([0; 16]).encrypted();
    let (r, g, b) = colour(seed).unwrap();
    assert_eq!(colour(seed), Some((r, g, b)));
    assert_eq!(colour([0; 16]), Some((67, 202, 100)));
    assert!((2 * u32::from(r) + 3 * u32::from(g) + u32::from(b)) / 6 > 100);
    assert_eq!(
        pretty_pid(&Pid([0; 16]), false, StyleSupport::TwentyFourBit),
        format!("\u{1b}[38;2;{};{};{}m66e94bd\u{1b}[0m", r, g, b)
    );
    assert_eq!(
        pretty_pid(&Pid([0; 16]), true, StyleSupport::Plain),
        "66e94bd"
    );
}

#[test]
fn sizes_without_fractions() {
    assert_eq!(parse_binary_size(""), Err(()));
    assert_eq!(parse_binary_size("12"), Ok(12));
    assert_eq!(parse_binary_size("12B"), Ok(12));
    assert_eq!(parse_binary_size("3KiB"), Ok(3 * 1024));
    assert_eq!(parse_binary_size("400GiB"), Ok(400 * 1024 * 1024 * 1024));
    assert_eq!(parse_binary_size("15EiB"), Ok(15 << 60));
    assert_eq!(parse_binary_size("3.0MiB"), Ok(3 * 1024 * 1024));
    assert_eq!(parse_binary_size("3.7"), Ok(3));
    assert_eq!(parse_binary_size("3parsecs"), Err(()));
    assert_eq!(try_parse_binary_size("3.5GiB"), None);
    assert_eq!(try_parse_binary_size("16EiB"), None);
    assert_eq!(try_parse_binary_size("KiB"), None);
    assert_eq!(try_parse_binary_size("3.5parsecs"), Some(Err(())));
}

#[test]
fn the_first_failure_counts() {
    let mut failure = FirstFailure::new();
    assert_eq!(failure.code(), 0);
    failure.add(Exited::Code(0));
    assert_eq!(failure.code(), 0);
    failure.add(Exited::Code(7));
    failure.add(Exited::Signal(Signal::SIGKILL));
    assert_eq!(failure.code(), 7);
    let mut failure = FirstFailure::new();
    failure.add(Exited::Signal(Signal::SIGKILL));
    failure.add(Exited::Code(7));
    assert_eq!(failure.code(), 1);
    assert_eq!(Exited::Code(3).to_text(), "Left(3)");
    assert_eq!(Exited::Signal(Signal::SIGKILL).to_text(), "Right(SIGKILL)");
}

#[test]
fn functions_are_found_again() {
    assert_eq!(relative(1000, 900), 100);
    assert_eq!(relative(900, 1000), usize::MAX - 99);
    assert_eq!(absolute(relative(900, 1000), 5000), 4900);
    assert_eq!(absolute(relative(1000, 900), 5000), 5100);
}

fn written(outputs: &[Output]) -> String {
    outputs
        .iter()
        .map(|output| match output {
            Output::Flush(fd) => format!("<flush {}>", fd),
            Output::Write(fd, bytes) => {
                format!("<{}>{}", fd, String::from_utf8(bytes.clone()).unwrap())
            }
        })
        .collect()
}

#[test]
fn events_are_shown() {
    let a = Pid([0; 16]);
    let b = Pid::new(IpAddr::V4(0x7f00_0001), 80);
    let (mut formatter, out) = Formatter::new(a, StyleSupport::Plain);
    assert_eq!(written(&out), "<2>66e94bd:\n");
    let out = formatter.write(&DeployOutputEvent::Spawn(a, b));
    assert_eq!(written(&out), format!("<2>   spawned: {}\n", b.to_string()));
    let out = formatter.write(&DeployOutputEvent::Output(b, 1, b"x\ny".to_vec()));
    assert_eq!(
        written(&out),
        format!(
            "<2>{}:\n<2>   <flush 2><1>x<1>\n<flush 1><2>   <flush 2><1>y",
            b.to_string()
        )
    );
    let out = formatter.write(&DeployOutputEvent::Exit(b, Exited::Code(0)));
    assert_eq!(written(&out), "<flush 1><2>\n<2>   exited: Left(0)\n");
}

fn word(text: &str) -> Word {
    let addr = match text {
        "10.0.0.1:9999" => Some(SocketAddr {
            ip: IpAddr::V4(0x0a00_0001),
            port: 9999,
        }),
        "10.0.0.1:8888" => Some(SocketAddr {
            ip: IpAddr::V4(0x0a00_0001),
            port: 8888,
        }),
        _ => None,
    };
    Word {
        text: String::from(text),
        addr,
        number: text.parse::<f32>().is_ok(),
    }
}

fn from_argv(words: &[&str]) -> Option<Result<Role, Stop>> {
    Role::from_argv(&words.iter().map(|text| word(text)).collect())
}

#[test]
fn the_command_line_of_a_node() {
    match from_argv(&[
        "master",
        "10.0.0.1:9999",
        "400GiB",
        "34",
        "bridge",
        "10.0.0.1:8888",
        "10.0.0.1:9999",
        "1KiB",
        "0.5",
    ]) {
        Some(Ok(Role::Master(nodes))) => {
            assert_eq!(nodes.len(), 2);
            assert_eq!(nodes[0].addr.port, 9999);
            assert_eq!(nodes[0].mem, 400 << 30);
            assert_eq!(nodes[0].cpu, "34");
            assert_eq!(nodes[0].run.len(), 1);
            assert_eq!(nodes[0].run[0].binary, "bridge");
            assert_eq!(nodes[0].run[0].addr.port, 8888);
            assert_eq!(nodes[1].mem, 1024);
            assert_eq!(nodes[1].cpu, "0.5");
            assert!(nodes[1].run.is_empty());
        }
        other => panic!("{:?}", other),
    }
    assert!(matches!(
        from_argv(&["10.0.0.1:9999"]),
        Some(Ok(Role::Worker(addr))) if addr.port == 9999
    ));
    assert!(matches!(from_argv(&[]), Some(Err(Stop::Help))));
    assert!(matches!(from_argv(&["--help"]), Some(Err(Stop::Help))));
    assert!(matches!(from_argv(&["-V"]), Some(Err(Stop::Version))));
    assert!(matches!(from_argv(&["x"]), Some(Err(Stop::BadOption))));
    assert!(matches!(from_argv(&["master"]), Some(Err(Stop::BadWorker))));
    assert!(matches!(
        from_argv(&["master", "10.0.0.1:9999", "1KiB", "1", "bridge"]),
        Some(Err(Stop::BadBridge))
    ));
    assert!(matches!(
        from_argv(&["master", "10.0.0.1:9999", "1KiB", "x"]),
        Some(Err(Stop::BadWorker))
    ));
    assert!(from_argv(&["master", "10.0.0.1:9999", "KiB", "1"]).is_none());
}

#[test]
fn why_a_node_does_not_run() {
    assert_eq!(Stop::Version.message("-V"), VERSION);
    assert_eq!(Stop::Version.code(), 0);
    assert_eq!(Stop::BadOption.code(), 1);
    assert_eq!(
        Stop::BadOption.message("x"),
        format!(
            "Invalid option \"x\", expecting either \"master\" or an address, like 127.0.0.1:9999\n{}",
            USAGE
        )
    );
    assert!(Stop::Help.message("").contains(USAGE));
}
