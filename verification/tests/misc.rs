use constellation::console::{Console, Output};
use constellation::error::{SpawnError, TrySpawnError};
use constellation::event::DeployOutputEvent;
use constellation::exit::{ExitStatus, ExitStatusError, ExitStatusUnix, Signal};
use constellation::format::{colour, colour_seed, pretty_pid, Formatter};
use constellation::heap::{HAlloc, UNKNOWN};
use constellation::hex::ToHex;
use constellation::master::{Action, Message, Node, Request, Scheduler};
use constellation::msg::{bridge_at, frame, unframe, BridgeRequest};
use constellation::net::{IpAddr, SocketAddr};
use constellation::owning::OwningOrRef;
use constellation::pid::{to_le_bytes, Pid};
use constellation::rand_stream::Rand;
use constellation::resources::Resources;
use constellation::style::{bright, StyleSupport};
use constellation::transfer::{shared_name, Copying};
use constellation::units::{Cpu, Mem};
use std::convert::TryFrom;

fn pid(key: u128) -> Pid {
    Pid::with_key(key, IpAddr::V4(0x7f00_0001), 1000)
}

#[test]
fn bytes_in_hexadecimal() {
    let bytes: &[u8] = &[0x00, 0x1f, 0xab];
    assert_eq!(bytes.to_hex().to_string(), "001fab");
    assert_eq!(bytes.to_hex().take(3), vec!['0', '0', '1']);
    let mut hex = bytes.to_hex();
    assert_eq!(hex.next(), Some('0'));
    assert_eq!(hex.to_string(), "01fab");
}

#[test]
fn identifiers() {
    let one = Pid::new(IpAddr::V4(1), 2);
    let other = Pid::new(IpAddr::V4(1), 2);
    assert_ne!(one.key, other.key);
    assert_eq!(
        one.addr(),
        SocketAddr {
            ip: IpAddr::V4(1),
            port: 2
        }
    );
    let known = pid(0x0123_4567_89ab_cdef);
    assert_eq!(to_le_bytes(known.key)[..4], [0xef, 0xcd, 0xab, 0x89]);
    assert_eq!(known.to_string(), "efcdab8");
    assert_eq!(known.format(), vec!['e', 'f', 'c', 'd', 'a', 'b', '8']);
}

#[test]
fn addresses_are_ordered() {
    let a = SocketAddr { ip: IpAddr::V4(1), port: 9 };
    let b = SocketAddr { ip: IpAddr::V4(2), port: 1 };
    let c = SocketAddr { ip: IpAddr::V6(0), port: 0 };
    assert!(a.before(&b) && !b.before(&a));
    assert!(b.before(&c) && !c.before(&b));
    assert!(!a.before(&a));
}

#[test]
fn signals_have_numbers_and_names() {
    assert_eq!(Signal::SIGKILL.number(), Some(9));
    assert_eq!(Signal::from_number(15), Some(Signal::SIGTERM));
    assert_eq!(Signal::from_number(0), None);
    assert_eq!(Signal::SIGSEGV.name(), "SIGSEGV");
    for n in 1..32 {
        let signal = Signal::from_number(n).unwrap();
        assert_eq!(signal.number(), Some(n));
    }
}

#[test]
fn statuses() {
    let failure = ExitStatus::from_unix_status(3);
    assert!(!failure.success());
    assert!(ExitStatus::from_unix_status(0).success());
    assert_eq!(
        failure.error(),
        Some(ExitStatusError::Unix(ExitStatusUnix::Status(3)))
    );
    assert_eq!(ExitStatus::Success + ExitStatus::Success, ExitStatus::Success);
    assert_eq!(failure + failure, failure);
    assert_eq!(
        failure + ExitStatus::Success,
        ExitStatus::Error(ExitStatusError::Indeterminate)
    );
    assert_eq!(ExitStatus::Success.to_code(), 0);
    assert_eq!(failure.to_code(), 3);
    let killed = ExitStatus::from_unix_signal(Signal::SIGKILL);
    assert_eq!(killed.to_code(), 137);
    assert_eq!(killed.to_text(), "Error(Unix(Signal(SIGKILL)))");
    assert_eq!(failure.to_text(), "Error(Unix(Status(3)))");
    let windows = ExitStatus::Error(ExitStatusError::Windows(u32::MAX));
    assert!(!windows.codable());
    assert_eq!(windows.to_text(), "Error(Windows(4294967295))");
    assert_eq!((failure + killed).to_code(), 101);
}

#[test]
fn why_a_process_was_not_started() {
    assert_eq!(
        TrySpawnError::from(SpawnError::Recce),
        TrySpawnError::Recce
    );
    assert_eq!(
        SpawnError::try_from(TrySpawnError::Recce),
        Ok(SpawnError::Recce)
    );
    assert_eq!(SpawnError::try_from(TrySpawnError::NoCapacity), Err(()));
    assert_eq!(
        SpawnError::try_from(TrySpawnError::Unknown),
        Ok(SpawnError::Unknown)
    );
    assert_ne!(
        TrySpawnError::NoCapacity.to_string(),
        TrySpawnError::Recce.to_string()
    );
    assert_eq!(
        TrySpawnError::Recce.to_string(),
        "try_spawn() because constellation::init() is not called immediately inside main()"
    );
    assert_eq!(
        SpawnError::Recce.to_string(),
        "spawn() because constellation::init() is not called immediately inside main()"
    );
}

#[test]
fn one_item_is_kept() {
    let mut rand = Rand::new();
    assert_eq!(Rand::<u8>::default().get(), None);
    rand.push_drawn('a', 0);
    rand.push_drawn('b', 1);
    rand.push_drawn('c', 0);
    rand.push_drawn('d', 3);
    assert_eq!(rand.get(), Some('c'));
    let mut seen = [0; 4];
    for _ in 0..400 {
        let mut rand = Rand::new();
        for i in 0..4 {
            rand.push(i);
        }
        seen[rand.get().unwrap()] += 1;
    }
    assert!(seen.iter().all(|&n| n > 20));
}

#[test]
fn styles() {
    let plain = StyleSupport::Plain.style();
    assert_eq!(plain.bold().color(1, 2, 3).paint("x"), "x");
    let eight = StyleSupport::EightBit.style();
    assert_eq!(eight.paint("x"), "x");
    assert_eq!(eight.bold().paint("x"), "\u{1b}[1mx\u{1b}[0m");
    assert_eq!(
        eight.color(255, 0, 128).paint("x"),
        "\u{1b}[38;5;198mx\u{1b}[0m"
    );
    let full = StyleSupport::TwentyFourBit.style();
    assert_eq!(
        full.color(1, 2, 3).bold().paint("x"),
        "\u{1b}[1;38;2;1;2;3mx\u{1b}[0m"
    );
    assert!(bright((255, 255, 255)));
    assert!(!bright((0, 0, 255)));
}

#[test]
fn a_colour_is_the_first_bright_draw() {
    for n in 0..100 {
        let mut rng: rand::rngs::SmallRng = rand::SeedableRng::from_seed(colour_seed(&pid(n)));
        let mut rgb: (u8, u8, u8) = rand::Rng::gen(&mut rng);
        while (2 * u16::from(rgb.0) + 3 * u16::from(rgb.1) + u16::from(rgb.2)) / 6 <= 100 {
            rgb = rand::Rng::gen(&mut rng);
        }
        assert_eq!(colour(&pid(n)), Some(rgb));
    }
}

#[test]
fn a_process_has_a_bright_colour() {
    let known = pid(0x0123_4567_89ab_cdef);
    assert_eq!(&colour_seed(&known)[..8], b"efcdab8\0");
    assert_eq!(colour_seed(&known)[8..], [0; 8]);
    let rgb = colour(&known).unwrap();
    assert!(bright(rgb));
    assert_eq!(
        pretty_pid(&known, false, StyleSupport::TwentyFourBit),
        format!("\u{1b}[38;2;{};{};{}mefcdab8\u{1b}[0m", rgb.0, rgb.1, rgb.2)
    );
    let colours: Vec<_> = (0..20).map(|n| colour(&pid(n))).collect();
    assert!(colours.iter().any(|c| *c != colours[0]));
}

fn written(outputs: &[Output]) -> String {
    outputs
        .iter()
        .map(|output| match output {
            Output::Flush(fd) => format!("<flush {}>", fd),
            Output::Write(fd, bytes) => {
                format!("<{}>{}", fd, String::from_utf8(bytes.clone()).unwrap())
            }
        })
        .collect()
}

#[test]
fn events_are_shown_to_a_person() {
    let (a, b) = (pid(1), pid(2));
    let (mut formatter, out) = Formatter::new(a, StyleSupport::Plain);
    assert_eq!(written(&out), format!("<2>{}:\n", a.to_string()));
    let out = formatter.write(&DeployOutputEvent::Spawn(a, b));
    assert_eq!(written(&out), format!("<2>   spawned: {}\n", b.to_string()));
    let out = formatter.write(&DeployOutputEvent::Output(b, 1, b"one\ntwo".to_vec()));
    assert_eq!(
        written(&out),
        format!(
            "<2>{}:\n<2>   <flush 2><1>one<1>\n<flush 1><2>   <flush 2><1>two",
            b.to_string()
        )
    );
    let out = formatter.write(&DeployOutputEvent::Output(b, 1, b" more\n".to_vec()));
    assert_eq!(written(&out), "<1> more<1>\n");
    assert!(formatter
        .write(&DeployOutputEvent::Output(b, 1, vec![]))
        .is_empty());
    let out = formatter.write(&DeployOutputEvent::Exit(a, ExitStatus::Success));
    assert_eq!(
        written(&out),
        format!("<flush 1><2>{}:\n<2>   exited\n", a.to_string())
    );
    let out = formatter.write(&DeployOutputEvent::Exit(a, ExitStatus::from_unix_status(1)));
    assert_eq!(written(&out), "<2>   exited: Error(Unix(Status(1)))\n");
}

#[test]
fn a_note_closes_an_unfinished_line() {
    let mut console = Console::new();
    let mut out = Vec::new();
    console.output(&mut out, None, 2, &b"x".to_vec());
    console.note(&mut out, Some(b"n".to_vec()), b"t".to_vec());
    assert_eq!(written(&out), "<2>   <2>x<2>\n<2>n:\n<2>   t\n");
}

fn request(id: u64, mem: u64, block: bool) -> Request {
    Request {
        id,
        resources: Resources {
            mem: Mem(mem),
            cpu: Cpu(1),
        },
        block,
    }
}

#[test]
fn processes_are_placed() {
    let node = |mem| Node { mem: Mem(mem), cpu: Cpu(10) };
    let mut master = Scheduler::new(vec![node(10), node(100)]);
    let big = request(1, 50, false);
    let actions = master.handle(Message::Spawn { request: big, force: None });
    assert_eq!(actions, vec![Action::Send { node: 1, request: big }]);
    let init = Message::Init { node: 1, pid: pid(1) };
    assert!(master.accepts(&init));
    assert!(!master.accepts(&Message::Init { node: 0, pid: pid(1) }));
    assert_eq!(
        master.handle(init),
        vec![Action::Reply { id: 1, result: Ok(pid(1)) }]
    );
    let refused = request(2, 60, false);
    assert_eq!(
        master.handle(Message::Spawn { request: refused, force: None }),
        vec![Action::Reply { id: 2, result: Err(TrySpawnError::NoCapacity) }]
    );
    let waiting = request(3, 60, true);
    assert!(master
        .handle(Message::Spawn { request: waiting, force: None })
        .is_empty());
    assert!(!master.accepts(&Message::Done { node: 0, pid: pid(1) }));
    assert_eq!(
        master.handle(Message::Done { node: 1, pid: pid(1) }),
        vec![Action::Send { node: 1, request: waiting }]
    );
}

#[test]
fn a_process_can_be_forced_onto_a_node() {
    let mut master = Scheduler::new(vec![
        Node { mem: Mem(1), cpu: Cpu(1) },
        Node { mem: Mem(100), cpu: Cpu(10) },
    ]);
    let bridge = Request {
        id: 7,
        resources: Resources { mem: Mem(0), cpu: Cpu(0) },
        block: false,
    };
    assert_eq!(
        master.handle(Message::Spawn { request: bridge, force: Some(0) }),
        vec![Action::Send { node: 0, request: bridge }]
    );
}

#[test]
fn nodes_give_and_take_back() {
    let mut node = Node { mem: Mem(10), cpu: Cpu(2) };
    let process = Resources { mem: Mem(4), cpu: Cpu(2) };
    assert!(node.fits(&process));
    node.allocate(&process);
    assert!(!node.fits(&process));
    assert_eq!(node.mem, Mem(6));
    node.free(&process);
    assert_eq!((node.mem, node.cpu), (Mem(10), Cpu(2)));
}

#[test]
fn an_allocator_keeps_its_limit() {
    let mut heap = HAlloc::new('h');
    assert_eq!(heap.left, UNKNOWN);
    heap.init(100);
    heap.init(500);
    assert_eq!(heap.left, 100);
    assert!(heap.ask(60));
    heap.asked(60, true);
    assert!(!heap.ask(41));
    assert!(heap.ask(40));
    heap.asked(40, false);
    assert_eq!(heap.left, 40);
    assert!(!heap.ask_resize(60, 101));
    assert!(heap.ask_resize(60, 70));
    heap.resized(60, 70, true);
    assert_eq!(heap.left, 30);
    assert!(heap.ask_resize(70, 10));
    heap.resized(70, 10, true);
    assert_eq!(heap.left, 90);
    heap.put_back(10);
    assert_eq!(heap.left, 100);
}

#[test]
fn bytes_are_moved_in_several_goes() {
    let mut copying = Copying::new(10);
    assert_eq!(copying.next(), Some(10));
    copying.moved(4);
    assert_eq!(copying.next(), Some(6));
    copying.moved(6);
    assert_eq!(copying.next(), None);
    assert_eq!(Copying::new(0).next(), None);
    assert_eq!(shared_name(&[0xab, 0x01]), "/ab01");
}

#[test]
fn files_are_framed() {
    let framed = frame(&vec![1, 2, 3]);
    assert_eq!(framed, vec![3, 0, 0, 0, 0, 0, 0, 0, 1, 2, 3]);
    let mut stream = framed.clone();
    stream.extend([9, 9]);
    assert_eq!(unframe(&stream), Some((vec![1, 2, 3], 11)));
    assert_eq!(unframe(&framed[..10].to_vec()), None);
    assert_eq!(unframe(&vec![1, 0, 0]), None);
    assert_eq!(frame(&vec![0; 300])[..3], [44, 1, 0]);
}

#[test]
fn requests() {
    let request = BridgeRequest::new(vec![b"prog".to_vec()], vec![], vec![1u8], ());
    assert_eq!(request.resources, None);
    let resources = Resources::default();
    let request = request.into_fabric(resources);
    assert!(request.block);
    assert_eq!(request.resources, resources);
    assert_eq!(request.args, vec![b"prog".to_vec()]);
    assert_eq!(request.arg, vec![1]);
    assert!(request.bind.is_empty());
    let at = SocketAddr { ip: IpAddr::V4(1), port: 2 };
    let request = bridge_at(at, b"exe".to_vec(), ());
    assert!(!request.block);
    assert_eq!(request.bind, vec![at]);
    assert_eq!(request.args, vec![b"exe".to_vec(), b"bridge".to_vec()]);
    assert_eq!(request.resources, Resources { mem: Mem(0), cpu: Cpu(0) });
}

#[test]
fn values_that_are_owned_or_not() {
    let owned: OwningOrRef<Vec<u8>> = OwningOrRef::Owning(vec![1]);
    assert_eq!(owned.into_inner(), Some(vec![1]));
    let bytes: &[u8] = &[1];
    let borrowed: OwningOrRef<Vec<u8>> = OwningOrRef::Ref(bytes);
    assert_eq!(borrowed.into_inner(), None);
}
