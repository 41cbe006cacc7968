use constellation::bridge::{needs_recce, outcome, relay, settle, Connection, RECCE_TIMEOUT};
use constellation::envs::{Deploy, Envs, Family, Format};
use constellation::error::TrySpawnError;
use constellation::event::{
    DeployInputEvent, DeployOutputEvent, FabricOutputEvent, ProcessInputEvent, ProcessOutputEvent,
};
use constellation::exit::{ExitStatus, ExitStatusError, ExitStatusUnix, Signal};
use constellation::fabric::{tries_again, Act, Child, Fabric, Occasion};
use constellation::monitor::{passes_on, Deed, Happening, Input, Monitor};
use constellation::net::{IpAddr, SocketAddr};
use constellation::pid::Pid;
use constellation::pool::ProcessPool;
use constellation::resources::Resources;
use constellation::session::{typed, Session};
use constellation::startup::{
    chosen_format, placed_part, plan, shows_version, Startup, StartupError, Telling, Trace,
};
use constellation::units::{Cpu, Mem};
use constellation::wait::{Waited, Waiting};

fn pid(key: u128) -> Pid {
    Pid::with_key(key, IpAddr::V4(0x7f00_0001), 1000)
}

fn failure(code: u8) -> ExitStatus {
    ExitStatus::Error(ExitStatusError::Unix(ExitStatusUnix::Status(code)))
}

#[test]
fn a_session_ends_with_its_last_process() {
    let mut session = Session::new(pid(1));
    let spawn = DeployOutputEvent::Spawn(pid(1), pid(2));
    assert!(session.accepts(&spawn));
    session.handle(&spawn);
    assert!(!session.accepts(&spawn));
    assert!(!session.accepts(&DeployOutputEvent::Output(pid(3), 1, vec![])));
    assert!(session.accepts(&DeployOutputEvent::Output(pid(2), 1, vec![1])));
    session.handle(&DeployOutputEvent::Exit(pid(1), ExitStatus::Success));
    assert!(!session.over());
    assert!(!session.has(pid(1)));
    assert!(session.has(pid(2)));
    session.handle(&DeployOutputEvent::Exit(pid(2), failure(3)));
    assert!(session.over());
    assert_eq!(
        session.status,
        ExitStatus::Error(ExitStatusError::Indeterminate)
    );
    assert_eq!(session.status.to_code(), 101);
}

#[test]
fn a_session_hears_its_processes_by_their_place() {
    let mut session = Session::new(pid(1));
    let event = session.hear(0, ProcessOutputEvent::Spawn(pid(2)));
    assert!(matches!(event, DeployOutputEvent::Spawn(a, b) if a == pid(1) && b == pid(2)));
    let event = session.hear(1, ProcessOutputEvent::Output(2, vec![7]));
    assert!(matches!(event, DeployOutputEvent::Output(a, 2, ref bytes) if a == pid(2) && *bytes == vec![7]));
    let event = session.hear(0, ProcessOutputEvent::Exit(ExitStatus::Success));
    assert!(matches!(event, DeployOutputEvent::Exit(a, ExitStatus::Success) if a == pid(1)));
    assert_eq!(session.live, vec![pid(2)]);
    let _ = session.hear(0, ProcessOutputEvent::Exit(ExitStatus::Success));
    assert!(session.over());
    assert_eq!(session.status, ExitStatus::Success);
}

#[test]
fn input_is_passed_on_up_to_its_end() {
    let (event, more) = typed(pid(1), vec![1, 2]);
    assert!(more);
    assert!(matches!(event, DeployInputEvent::Input(p, 0, ref b) if p == pid(1) && *b == vec![1, 2]));
    let (event, more) = typed(pid(1), vec![]);
    assert!(!more);
    assert!(matches!(event, DeployInputEvent::Input(_, 0, ref b) if b.is_empty()));
}

#[test]
fn the_end_of_a_process_is_told_last() {
    let mut monitor = Monitor::new();
    assert!(monitor.handle(Happening::Ended(failure(1))).is_empty());
    let deeds = monitor.handle(Happening::Stdout(vec![1, 2]));
    assert!(matches!(deeds[..], [Deed::Send(ProcessOutputEvent::Output(1, ref b))] if *b == vec![1, 2]));
    assert_eq!(monitor.handle(Happening::Stdout(vec![])).len(), 1);
    assert!(!monitor.accepts(&Happening::Stdout(vec![1])));
    assert!(monitor.handle(Happening::NoMoreReports).is_empty());
    let deeds = monitor.handle(Happening::Stderr(vec![]));
    assert_eq!(deeds.len(), 2);
    assert!(matches!(deeds[0], Deed::Send(ProcessOutputEvent::Output(2, ref b)) if b.is_empty()));
    assert!(matches!(deeds[1], Deed::Send(ProcessOutputEvent::Exit(status)) if status == failure(1)));
    assert!(monitor.told);
    assert!(!monitor.accepts(&Happening::Told(ProcessInputEvent::Kill)));
}

#[test]
fn a_process_is_given_its_input() {
    let mut monitor = Monitor::new();
    let told = |bytes: &[u8]| Happening::Told(ProcessInputEvent::Input(0, bytes.to_vec()));
    assert!(matches!(monitor.handle(told(&[5]))[..], [Deed::Write(ref b)] if *b == vec![5]));
    assert!(!monitor.accepts(&Happening::Told(ProcessInputEvent::Input(3, vec![]))));
    assert!(matches!(monitor.handle(told(&[]))[..], [Deed::CloseInput]));
    assert_eq!(monitor.input, Input::Ended);
    assert!(!monitor.accepts(&told(&[6])));
    assert!(matches!(monitor.handle(Happening::Told(ProcessInputEvent::Kill))[..], [Deed::Kill]));

    let mut monitor = Monitor::new();
    assert!(matches!(monitor.handle(Happening::WriteFailed)[..], [Deed::CloseInput]));
    assert!(monitor.handle(told(&[7])).is_empty());
    assert!(monitor.handle(told(&[])).is_empty());
    assert_eq!(monitor.input, Input::Deaf);
}

#[test]
fn a_process_that_starts_another_reports_it() {
    let mut monitor = Monitor::new();
    let deeds = monitor.handle(Happening::Report(ProcessOutputEvent::Spawn(pid(9))));
    assert!(matches!(deeds[..], [Deed::Send(ProcessOutputEvent::Spawn(p))] if p == pid(9)));
    assert!(!monitor.accepts(&Happening::Report(ProcessOutputEvent::Exit(ExitStatus::Success))));
}

#[test]
fn only_connections_of_the_bridge_are_kept() {
    let bridge = SocketAddr { ip: IpAddr::V4(1), port: 2 };
    let other = SocketAddr { ip: IpAddr::V4(1), port: 3 };
    assert!(!passes_on(Some(bridge), bridge));
    assert!(passes_on(Some(other), bridge));
    assert!(!passes_on(None, bridge));
}

#[test]
fn waiting_for_children() {
    assert_eq!(Waited::Interrupted.reap(), Waiting::Again);
    assert_eq!(Waited::Exited(0).reap(), Waiting::Again);
    assert_eq!(Waited::NoChild.reap(), Waiting::Over);
    assert_eq!(Waited::Exited(1).reap(), Waiting::Bad);
    assert_eq!(Waited::Interrupted.watch(), Waiting::Again);
    assert_eq!(Waited::Exited(1).watch(), Waiting::Over);
    assert_eq!(Waited::Other.watch(), Waiting::Bad);
    assert_eq!(Waited::Exited(0).status(), Some(ExitStatus::Success));
    assert_eq!(Waited::Exited(7).status(), Some(failure(7)));
    assert_eq!(Waited::Exited(256).status(), None);
    assert_eq!(
        Waited::Signaled(Signal::SIGKILL).status(),
        Some(ExitStatus::from_unix_signal(Signal::SIGKILL))
    );
    let answer = Some(Resources::default());
    assert_eq!(Waited::Exited(0).requirements(answer), answer);
    assert_eq!(Waited::Exited(1).requirements(answer), None);
    assert_eq!(Waited::Signaled(Signal::SIGKILL).requirements(answer), None);
}

#[test]
fn what_a_program_is_placed_by() {
    let some = Resources { mem: Mem(1), cpu: Cpu(2) };
    let other = Resources { mem: Mem(3), cpu: Cpu(4) };
    assert!(needs_recce(&None));
    assert!(!needs_recce(&Some(some)));
    assert_eq!(settle(Some(some), Some(other)), Ok(some));
    assert_eq!(settle(None, Some(other)), Ok(other));
    assert_eq!(settle(None, None), Err(TrySpawnError::Recce));
    assert_eq!(outcome(Ok(some), Ok(pid(1))), Ok(pid(1)));
    assert_eq!(
        outcome(Ok(some), Err(TrySpawnError::NoCapacity)),
        Err(TrySpawnError::NoCapacity)
    );
    assert_eq!(
        outcome(Err(TrySpawnError::Recce), Ok(pid(1))),
        Err(TrySpawnError::Recce)
    );
    assert_eq!(RECCE_TIMEOUT, 10);
}

#[test]
fn reports_are_relayed() {
    let relayed = relay(pid(1), ProcessOutputEvent::Spawn(pid(2)));
    assert!(relayed.more);
    assert_eq!(relayed.watch, Some(pid(2)));
    assert!(matches!(relayed.event, DeployOutputEvent::Spawn(a, b) if a == pid(1) && b == pid(2)));
    let relayed = relay(pid(1), ProcessOutputEvent::Exit(failure(1)));
    assert!(!relayed.more);
    assert_eq!(relayed.watch, None);
}

#[test]
fn a_connection_tells_its_own_processes_only() {
    let mut connection = Connection::new(pid(1));
    let spawn = DeployOutputEvent::Spawn(pid(1), pid(2));
    assert!(connection.accepts(&spawn));
    assert!(connection.report(&spawn));
    let orders = connection.hear(Some(DeployInputEvent::Input(pid(2), 0, vec![1])));
    assert_eq!(orders.len(), 1);
    assert_eq!(orders[0].pid, pid(2));
    assert!(matches!(orders[0].event, ProcessInputEvent::Input(0, ref b) if *b == vec![1]));
    assert!(connection
        .hear(Some(DeployInputEvent::Input(pid(3), 0, vec![1])))
        .is_empty());
    assert!(connection
        .hear(Some(DeployInputEvent::Kill(Some(pid(3)))))
        .is_empty());
    assert_eq!(
        connection.hear(Some(DeployInputEvent::Kill(Some(pid(1))))).len(),
        1
    );
    assert!(!connection.accepts(&DeployOutputEvent::Exit(pid(3), ExitStatus::Success)));
    assert!(connection.report(&DeployOutputEvent::Exit(pid(1), ExitStatus::Success)));
    assert_eq!(connection.live, vec![pid(2)]);
}

#[test]
fn a_connection_that_breaks_takes_its_processes_along() {
    let mut connection = Connection::new(pid(1));
    assert!(connection.report(&DeployOutputEvent::Spawn(pid(1), pid(2))));
    let orders = connection.hear(None);
    assert!(!connection.reading);
    assert_eq!(orders.len(), 2);
    for order in &orders {
        assert!(matches!(order.event, ProcessInputEvent::Kill));
    }
    let orders = connection.fail();
    assert_eq!(orders.iter().map(|o| o.pid).collect::<Vec<_>>(), vec![pid(1), pid(2)]);
    assert!(connection.live.is_empty());
    assert!(connection.accepts(&DeployOutputEvent::Exit(pid(1), ExitStatus::Success)));
    assert!(!connection.report(&DeployOutputEvent::Exit(pid(1), ExitStatus::Success)));
}

fn silent() -> Envs {
    Envs {
        deploy: None,
        version: None,
        recce: None,
        format: None,
        resources: None,
    }
}

#[test]
fn in_which_way_a_program_starts() {
    let declared = Resources::default();
    let given = Resources { mem: Mem(1), cpu: Cpu(2) };
    let plan_ = |envs: &Envs| plan(Family::Constellation, envs, declared);
    assert_eq!(plan_(&silent()), Ok(Startup::First(declared, Format::Human)));
    assert_eq!(
        plan_(&Envs { format: Some(Some(Format::Json)), ..silent() }),
        Ok(Startup::First(declared, Format::Json))
    );
    assert_eq!(
        plan_(&Envs { version: Some(Some(true)), ..silent() }),
        Ok(Startup::Version)
    );
    assert_eq!(
        plan_(&Envs { recce: Some(Some(true)), ..silent() }),
        Ok(Startup::Recce(declared))
    );
    assert_eq!(
        plan_(&Envs { resources: Some(Some(given)), ..silent() }),
        Ok(Startup::Beside(given))
    );
    assert_eq!(
        plan_(&Envs {
            deploy: Some(Some(Deploy::Fabric)),
            resources: Some(Some(given)),
            ..silent()
        }),
        Ok(Startup::Placed(given))
    );
}

#[test]
fn why_a_program_does_not_start() {
    let declared = Resources::default();
    let plan_ = |envs: &Envs| plan(Family::Constellation, envs, declared);
    assert_eq!(plan_(&Envs { version: Some(None), ..silent() }), Err(StartupError::Version));
    assert_eq!(plan_(&Envs { recce: Some(None), ..silent() }), Err(StartupError::Recce));
    assert_eq!(plan_(&Envs { format: Some(None), ..silent() }), Err(StartupError::Format));
    assert_eq!(plan_(&Envs { resources: Some(None), ..silent() }), Err(StartupError::Resources));
    let both = Envs { version: Some(Some(true)), recce: Some(Some(true)), ..silent() };
    assert_eq!(plan_(&both), Err(StartupError::VersionAndRecce));
    assert_eq!(plan(Family::Deploy, &both, declared), Ok(Startup::Version));
    let lazy = Envs { recce: Some(Some(true)), format: Some(None), ..silent() };
    assert_eq!(plan(Family::Deploy, &lazy, declared), Ok(Startup::Recce(declared)));
    assert_eq!(
        StartupError::Version.message(Family::Constellation),
        "CONSTELLATION_VERSION must be 0 or 1"
    );
    assert_eq!(
        StartupError::Format.message(Family::Deploy),
        "DEPLOY_FORMAT must be json or human"
    );
    let other = Resources { mem: Mem(1), cpu: Cpu(2) };
    assert_eq!(placed_part(declared, other, &vec![1]), Ok(true));
    assert_eq!(placed_part(declared, declared, &vec![]), Ok(false));
    assert_eq!(placed_part(declared, other, &vec![]), Err(StartupError::OtherResources));
}

#[test]
fn what_a_tool_is_asked() {
    assert_eq!(shows_version(true, &Envs { version: Some(None), ..silent() }), Ok(true));
    assert_eq!(shows_version(false, &Envs { version: Some(Some(true)), ..silent() }), Ok(true));
    assert_eq!(shows_version(false, &silent()), Ok(false));
    assert_eq!(
        shows_version(false, &Envs { version: Some(None), ..silent() }),
        Err(StartupError::Version)
    );
    assert_eq!(chosen_format(None, &silent()), Ok(Format::Human));
    assert_eq!(
        chosen_format(Some(Format::Human), &Envs { format: Some(Some(Format::Json)), ..silent() }),
        Ok(Format::Human)
    );
    assert_eq!(
        chosen_format(None, &Envs { format: Some(None), ..silent() }),
        Err(StartupError::Format)
    );
    assert_eq!(Trace::new(Format::Json, true).fabric(), Telling::Json);
    assert_eq!(Trace::new(Format::Human, true).fabric(), Telling::Human);
    assert_eq!(Trace::new(Format::Json, false).fabric(), Telling::Nothing);
}

#[test]
fn a_node_runs_processes() {
    let mut fabric = Fabric::new();
    let child = Child { pid: pid(1), system_pid: 77 };
    assert!(fabric.accepts(Occasion::Started(child)));
    let acts = fabric.handle(Occasion::Started(child));
    assert_eq!(acts.len(), 2);
    assert!(matches!(acts[0], Act::Show(FabricOutputEvent::Init { pid: p, system_pid: 77 }) if p == pid(1)));
    assert!(matches!(acts[1], Act::TellStarted(p) if p == pid(1)));
    assert!(!fabric.accepts(Occasion::Started(child)));
    assert!(!fabric.accepts(Occasion::Ended(pid(2))));
    let acts = fabric.handle(Occasion::MasterLost);
    assert!(matches!(acts[..], [Act::Kill(77)]));
    assert!(!fabric.idle());
    let acts = fabric.handle(Occasion::Ended(pid(1)));
    assert!(matches!(acts[0], Act::Show(FabricOutputEvent::Exit { pid: p, system_pid: 77 }) if p == pid(1)));
    assert!(matches!(acts[1], Act::TellEnded(p) if p == pid(1)));
    assert!(fabric.idle());
}

#[test]
fn a_node_is_tried_for_a_minute() {
    assert!(tries_again(0, 0));
    assert!(tries_again(59, 999_999_999));
    assert!(tries_again(60, 0));
    assert!(!tries_again(60, 1));
    assert!(!tries_again(61, 0));
}

#[test]
fn a_pool_may_be_empty() {
    let _pool: ProcessPool<u8> = ProcessPool::new(0);
}

#[test]
fn a_pool_takes_turns_and_answers_in_order() {
    let mut pool: ProcessPool<&'static str> = ProcessPool::new(2);
    let a = pool.spawn();
    let b = pool.spawn();
    let c = pool.spawn();
    assert_eq!((a.process, a.offset), (0, 0));
    assert_eq!((b.process, b.offset), (1, 0));
    assert_eq!((c.process, c.offset), (0, 1));
    assert!(pool.waits(c));
    pool.received(0, "first");
    assert!(!pool.waits(a));
    assert!(pool.waits(c));
    pool.received(0, "second");
    pool.received(1, "other");
    assert_eq!(pool.join(c), "second");
    assert_eq!(pool.join(a), "first");
    assert_eq!(pool.join(b), "other");
    let d = pool.spawn();
    assert_eq!((d.process, d.offset), (1, 1));
}
