use constellation::deploy::exit::Exited;
use constellation::deploy::format::DeployOutputEvent;
use constellation::deploy::pid::Pid;
use constellation::harness::binary_string::{deserialize, serialize, try_deserialize};
use constellation::harness::expected::OutputTest;
use constellation::harness::hashmap::intersection;
use constellation::harness::log::Log;
use constellation::harness::serde_regex::{SerdeRegex, LITERAL_LIMIT};
use constellation::harness::serialize_as_regex_string::SerializeAsRegexString;
use constellation::harness::string::{read_expectation, Chars};
use constellation::net::IpAddr;

#[test]
fn bytes_as_text() {
    let all: Vec<u8> = (0..=255).collect();
    let text = serialize(&all);
    assert_eq!(text.chars().count(), 256);
    assert_eq!(text.chars().nth(233), Some('\u{e9}'));
    assert_eq!(deserialize(&text), all);
    assert_eq!(try_deserialize("a\u{100}"), None);
    assert_eq!(try_deserialize("a\u{ff}"), Some(vec![97, 255]));
}

#[test]
fn characters_one_by_one() {
    let mut chars = Chars::new(String::from("a\u{e9}"));
    assert_eq!(chars.next(), Some('a'));
    assert_eq!(chars.next(), Some('\u{e9}'));
    assert_eq!(chars.next(), None);
    assert_eq!(chars.next(), None);
}

#[test]
fn expectations_are_written_in_the_first_lines() {
    let lines = ["//= {", "//=   \"a\"", "//= }", "fn main() {}", "//= more"]
        .iter()
        .map(|line| String::from(*line))
        .collect();
    assert_eq!(
        read_expectation(&lines).iter().collect::<String>(),
        " {   \"a\" }"
    );
    assert!(read_expectation(&vec![String::from("//")]).is_empty());
}

#[test]
fn what_two_maps_have_in_common() {
    let left = vec![(1, 'a'), (2, 'b'), (3, 'c')];
    let right = vec![(3, "three"), (1, "one"), (4, "four")];
    let mut common = intersection(&left, &right);
    assert_eq!(common.size_hint(), (0, Some(3)));
    assert_eq!(common.next(), Some((1, &'a', &"one")));
    assert_eq!(common.next(), Some((3, &'c', &"three")));
    assert_eq!(common.next(), None);
    assert_eq!(common.size_hint(), (0, Some(0)));
}

#[test]
fn output_as_a_regular_expression() {
    let output = SerializeAsRegexString(b"1+1=2 (yes)\n".to_vec());
    assert_eq!(output.serialize(), "1\\+1=2 \\(yes\\)\n");
    let output = SerializeAsRegexString(vec![0x61, 0xff]);
    assert_eq!(output.serialize(), "a\u{fffd}");
}

#[test]
fn regular_expressions_stand_for_all_output() {
    let regex = SerdeRegex::deserialize("a+.c").unwrap();
    assert_eq!(regex.serialize(), "a+.c");
    assert!(regex.is_match(&b"aaa\nc".to_vec()));
    assert!(!regex.is_match(&b"aaabc!".to_vec()));
    assert!(regex.is_match(&vec![0x61, 0xff, 0x63]));
    assert!(SerdeRegex::deserialize("(").is_none());
}

#[test]
fn output_matches_the_expression_made_of_it() {
    for text in ["", "1+1=2 (yes)\n", "\\d{3}|[a-z]^$#&~-", "caf\u{e9}\n"] {
        let bytes = text.as_bytes().to_vec();
        let text = SerializeAsRegexString(bytes.clone()).serialize();
        let regex = SerdeRegex::deserialize(&text).unwrap();
        assert!(regex.is_match(&bytes));
        let mut longer = bytes;
        longer.push(b'!');
        assert!(!regex.is_match(&longer));
    }
}

#[test]
fn long_output_has_an_expression() {
    for unit in ["x", ".", "\u{e9}"] {
        let bytes = unit.repeat(LITERAL_LIMIT / unit.len()).into_bytes();
        assert_eq!(bytes.len(), LITERAL_LIMIT);
        let text = SerializeAsRegexString(bytes.clone()).serialize();
        let regex = SerdeRegex::deserialize(&text).unwrap();
        assert!(regex.is_match(&bytes));
        assert!(!regex.is_match(&bytes[1..].to_vec()));
    }
}

fn pid(n: u16) -> Pid {
    Pid::new(IpAddr::V4(0x7f00_0001), n)
}

fn log() -> Log {
    let mut log = Log::new();
    for event in [
        DeployOutputEvent::Output(pid(1), 1, b"hel".to_vec()),
        DeployOutputEvent::Spawn(pid(1), pid(2)),
        DeployOutputEvent::Output(pid(1), 1, b"lo".to_vec()),
        DeployOutputEvent::Spawn(pid(1), pid(3)),
        DeployOutputEvent::Exit(pid(3), Exited::Code(0)),
        DeployOutputEvent::Output(pid(1), 1, vec![]),
        DeployOutputEvent::Exit(pid(2), Exited::Code(5)),
        DeployOutputEvent::Exit(pid(1), Exited::Code(0)),
    ] {
        assert!(log.accepts(&event));
        log.handle(&event);
    }
    log
}

#[test]
fn what_a_program_did() {
    let log = log();
    assert!(log.is_complete());
    assert!(!Log::new().is_complete());
    assert_eq!(log.entries.len(), 3);
    assert_eq!(log.entries[0].output, vec![(1, (b"hello".to_vec(), true))]);
    assert_eq!(log.entries[1].exit, Some(Exited::Code(5)));
    assert!(!log.accepts(&DeployOutputEvent::Output(pid(1), 1, vec![1])));
    assert!(log.accepts(&DeployOutputEvent::Output(pid(1), 2, vec![1])));
    assert!(!log.accepts(&DeployOutputEvent::Spawn(pid(1), pid(2))));
    assert!(!log.accepts(&DeployOutputEvent::Exit(pid(9), Exited::Code(0))));
    assert!(!Log::new().accepts(&DeployOutputEvent::Spawn(pid(1), pid(1))));
}

fn test(pattern: &str, codes: [u8; 2]) -> OutputTest {
    let mut test = OutputTest::new(
        vec![(1, (SerdeRegex::deserialize(pattern).unwrap(), true))],
        Exited::Code(0),
    );
    for code in codes {
        test.add(0, vec![], Exited::Code(code));
    }
    test
}

#[test]
fn a_program_does_what_is_expected() {
    let log = log();
    assert!(test("h.*o", [5, 0]).is_match(&log));
    assert!(test("h.*o", [0, 5]).is_match(&log));
    assert!(!test("h.*o", [5, 5]).is_match(&log));
    assert!(!test("hell", [5, 0]).is_match(&log));
    let lonely = OutputTest::new(
        vec![(1, (SerdeRegex::deserialize("hello").unwrap(), true))],
        Exited::Code(0),
    );
    assert!(!lonely.is_match(&log));
    let failing = OutputTest::new(vec![], Exited::Code(1));
    assert!(!failing.is_match(&log));
}

#[test]
fn the_answers_of_expressions_decide() {
    let log = log();
    let test = test("h.*o", [5, 0]);
    let row = vec![true, false, false];
    assert_eq!(test.ask(&log), vec![vec![row.clone()], vec![], vec![]]);
    assert!(test.decide(&log, &vec![vec![row], vec![], vec![]]));
    let others = vec![false, true, true];
    assert!(!test.decide(&log, &vec![vec![others], vec![], vec![]]));
}

#[test]
fn output_that_goes_on_is_not_at_its_end() {
    let mut log = Log::new();
    log.handle(&DeployOutputEvent::Output(pid(1), 1, b"hello".to_vec()));
    log.handle(&DeployOutputEvent::Exit(pid(1), Exited::Code(0)));
    for (ended, matched) in [(true, false), (false, true)] {
        let regex = SerdeRegex::deserialize("hello").unwrap();
        let test = OutputTest::new(vec![(1, (regex, ended))], Exited::Code(0));
        assert_eq!(test.is_match(&log), matched);
    }
}
