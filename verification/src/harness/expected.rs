//! What a program is expected to do.

use super::hashmap::{find_key, intersection, is_map, lemma_placed, next_common, place_of};
use super::log::{complete, lemma_place_of_views, output_views, wf, EntryView, Log};
use super::numbers::{empty, insert, items, len, list};
use super::serde_regex::{regex_matches, SerdeRegex};
use crate::deploy::exit::Exited;
use vstd::multiset::Multiset;
use vstd::prelude::*;

verus! {

/// What one process is expected to do.
pub struct Expectation {
    /// What it is to write to each descriptor, and whether that is to come to its
    /// end.
    pub output: Vec<(i32, (SerdeRegex, bool))>,
    /// The numbers of the expectations of the processes that it is to start.
    pub children: multiset::HashMultiSet<u64>,
    /// How it is to end.
    pub exit: Exited,
}

/// What one process is expected to do.
pub struct ExpectationView {
    pub output: Seq<(i32, (Seq<char>, bool))>,
    pub children: Multiset<u64>,
    pub exit: Exited,
}

/// What the processes of a program are expected to do. The first process has
/// number zero, and each other has a higher number than the one that is to start
/// it.
pub struct OutputTest {
    pub expectations: Vec<Expectation>,
}

/// Expected output, as it is told of.
pub open spec fn pattern_views(output: Seq<(i32, (SerdeRegex, bool))>) -> Seq<
    (i32, (Seq<char>, bool)),
> {
    output.map_values(
        |entry: (i32, (SerdeRegex, bool))| (entry.0, (entry.1.0@, entry.1.1)),
    )
}

impl View for Expectation {
    type V = ExpectationView;

    open spec fn view(&self) -> ExpectationView {
        ExpectationView {
            output: pattern_views(self.output@),
            children: items(self.children),
            exit: self.exit,
        }
    }
}

impl View for OutputTest {
    type V = Seq<ExpectationView>;

    open spec fn view(&self) -> Seq<ExpectationView> {
        self.expectations@.map_values(|expectation: Expectation| expectation@)
    }
}

/// Whether each process has a higher number than the one that is to start it.
pub open spec fn in_order(tests: Seq<ExpectationView>) -> bool {
    forall|i: int, child: u64|
        0 <= i < tests.len() && #[trigger] tests[i].children.count(child) > 0 ==> i < child
            < tests.len()
}

/// Whether each process has a higher number than the one that is to start it,
/// and is expected to write to no descriptor twice.
pub open spec fn sound(tests: Seq<ExpectationView>) -> bool {
    &&& in_order(tests)
    &&& forall|i: int| 0 <= i < tests.len() ==> is_map((#[trigger] tests[i]).output)
}

/// Whether what was written to the descriptor of an expected output matches its
/// expression.
pub open spec fn answer(
    test: (i32, (Seq<char>, bool)),
    written: Seq<(i32, (Seq<u8>, bool))>,
) -> bool {
    place_of(written, test.0, 0) matches Some(m) && regex_matches(test.1.0, written[m].1.0)
}

/// What the expressions answer: of each expectation, for each output that it
/// expects, whether what each process wrote there matches.
pub open spec fn asked(tests: Seq<ExpectationView>, log: Seq<EntryView>) -> Seq<Seq<Seq<bool>>> {
    Seq::new(
        tests.len(),
        |i: int|
            Seq::new(
                tests[i].output.len(),
                |k: int|
                    Seq::new(log.len(), |j: int| answer(tests[i].output[k], log[j].output)),
            ),
    )
}

/// Answers, as they are told of.
pub open spec fn answer_views(answers: Seq<Vec<Vec<bool>>>) -> Seq<Seq<Seq<bool>>> {
    answers.map_values(|of: Vec<Vec<bool>>| output_answers(of@))
}

/// The answers of one expectation, as they are told of.
pub open spec fn output_answers(answers: Seq<Vec<bool>>) -> Seq<Seq<bool>> {
    answers.map_values(|of: Vec<bool>| of@)
}

/// Whether there is an answer for each expected output and each process.
pub open spec fn answered(
    answers: Seq<Seq<Seq<bool>>>,
    tests: Seq<ExpectationView>,
    log: Seq<EntryView>,
) -> bool {
    &&& answers.len() == tests.len()
    &&& forall|i: int|
        0 <= i < tests.len() ==> (#[trigger] answers[i]).len() == tests[i].output.len()
    &&& forall|i: int, k: int|
        0 <= i < tests.len() && 0 <= k < tests[i].output.len() ==> (#[trigger] answers[i][k]).len()
            == log.len()
}

/// Whether the output that is expected and the output that process `j` wrote
/// agree on each descriptor that both speak of.
pub open spec fn outputs_agree(
    expected: Seq<(i32, (Seq<char>, bool))>,
    written: Seq<(i32, (Seq<u8>, bool))>,
    answers: Seq<Seq<bool>>,
    j: int,
) -> bool {
    forall|k: int|
        0 <= k < expected.len() ==> #[trigger] output_agrees(expected, written, answers, j, k)
}

/// Whether the output that is expected at `k` and what process `j` wrote there
/// agree.
pub open spec fn output_agrees(
    expected: Seq<(i32, (Seq<char>, bool))>,
    written: Seq<(i32, (Seq<u8>, bool))>,
    answers: Seq<Seq<bool>>,
    j: int,
    k: int,
) -> bool {
    place_of(written, expected[k].0, 0) matches Some(m) ==> {
        &&& expected[k].1.1 == written[m].1.1
        &&& answers[k][j]
    }
}

/// Whether process `j` did what is expected in `tests[i]`, but for the processes
/// that it started.
pub open spec fn fits_itself(
    tests: Seq<ExpectationView>,
    i: int,
    log: Seq<EntryView>,
    j: int,
    answers: Seq<Seq<Seq<bool>>>,
) -> bool {
    &&& Some(tests[i].exit) == log[j].exit
    &&& tests[i].output.len() == log[j].output.len()
    &&& tests[i].children.len() == log[j].children.len()
    &&& outputs_agree(tests[i].output, log[j].output, answers[i], j)
}

/// Whether process `j`, and all that it started, did what is expected in
/// `tests[i]`: each process that is expected is found among those that it
/// started, and each of those is expected.
pub open spec fn fits(
    tests: Seq<ExpectationView>,
    i: int,
    log: Seq<EntryView>,
    j: int,
    answers: Seq<Seq<Seq<bool>>>,
) -> bool
    decreases tests.len() - i,
{
    &&& fits_itself(tests, i, log, j, answers)
    &&& forall|a: u64|
        #![trigger tests[i].children.count(a)]
        tests[i].children.count(a) > 0 ==> i < a < tests.len() && exists|b: u64|
            #![trigger log[j].children.count(b)]
            log[j].children.count(b) > 0 && fits(tests, a as int, log, b as int, answers)
    &&& forall|b: u64|
        #![trigger log[j].children.count(b)]
        log[j].children.count(b) > 0 ==> exists|a: u64|
            #![trigger tests[i].children.count(a)]
            tests[i].children.count(a) > 0 && i < a < tests.len() && fits(
                tests,
                a as int,
                log,
                b as int,
                answers,
            )
}

proof fn lemma_list(found: Seq<u64>, set: Multiset<u64>)
    requires
        found.to_multiset() == set,
    ensures
        found.len() == set.len(),
        forall|a: u64| #[trigger] set.count(a) > 0 <==> found.contains(a),
{
    broadcast use vstd::seq_lib::group_to_multiset_ensures;

}

proof fn lemma_skipped<V1, V2>(left: Seq<(i32, V1)>, right: Seq<(i32, V2)>, from: int, i: int)
    requires
        0 <= from <= i < left.len(),
        match next_common(left, right, from) {
            Some(next) => i < next,
            None => true,
        },
    ensures
        place_of(right, left[i].0, 0) is None,
    decreases i - from,
{
    if place_of(right, left[from].0, 0) is None && i > from {
        lemma_skipped(left, right, from + 1, i);
    }
}

proof fn lemma_maps(expected: Seq<(i32, (SerdeRegex, bool))>, written: Seq<(i32, (Vec<u8>, bool))>)
    requires
        is_map(pattern_views(expected)),
        is_map(output_views(written)),
    ensures
        is_map(expected),
        is_map(written),
{
    assert forall|i: int, j: int| 0 <= i < j < expected.len() implies (#[trigger] expected[i]).0 != (
    #[trigger] expected[j]).0 by {
        assert(pattern_views(expected)[i].0 != pattern_views(expected)[j].0);
    }
    assert forall|i: int, j: int| 0 <= i < j < written.len() implies (#[trigger] written[i]).0 != (
    #[trigger] written[j]).0 by {
        assert(output_views(written)[i].0 != output_views(written)[j].0);
    }
}

/// Whether the output that is expected and the output that process `j` wrote
/// agree, going by the answers of the expressions.
fn agree(
    expected: &Vec<(i32, (SerdeRegex, bool))>,
    written: &Vec<(i32, (Vec<u8>, bool))>,
    answers: &Vec<Vec<bool>>,
    j: usize,
) -> (r: bool)
    requires
        is_map(pattern_views(expected@)),
        is_map(output_views(written@)),
        answers@.len() == expected@.len(),
        forall|k: int| 0 <= k < answers@.len() ==> j < (#[trigger] answers@[k])@.len(),
    ensures
        r == outputs_agree(
            pattern_views(expected@),
            output_views(written@),
            output_answers(answers@),
            j as int,
        ),
{
    let ghost patterns = pattern_views(expected@);
    let ghost writes = output_views(written@);
    let ghost says = output_answers(answers@);
    proof {
        lemma_maps(expected@, written@);
    }
    let mut common = intersection(expected, written);
    loop
        invariant
            common.wf(),
            common.first() == expected@,
            common.second() == written@,
            0 <= common.place() <= expected@.len(),
            patterns == pattern_views(expected@),
            writes == output_views(written@),
            says == output_answers(answers@),
            is_map(expected@),
            answers@.len() == expected@.len(),
            forall|k: int| 0 <= k < answers@.len() ==> j < (#[trigger] answers@[k])@.len(),
            forall|i: int|
                0 <= i < common.place() ==> #[trigger] output_agrees(
                    patterns,
                    writes,
                    says,
                    j as int,
                    i,
                ),
        decreases expected@.len() - common.place(),
    {
        let ghost from = common.place();
        match common.next() {
            None => {
                assert forall|i: int| 0 <= i < patterns.len() implies #[trigger] output_agrees(
                    patterns,
                    writes,
                    says,
                    j as int,
                    i,
                ) by {
                    if i >= from {
                        lemma_skipped(expected@, written@, from, i);
                        lemma_place_of_views(written@, expected@[i].0, 0);
                    }
                }
                return true;
            },
            Some((fd, test, output)) => {
                let ghost next = common.place() - 1;
                proof {
                    lemma_next_common(expected@, written@, from);
                    lemma_place_of_views(written@, fd, 0);
                    assert(patterns[next].0 == fd);
                    assert(patterns[next].1.1 == test.1);
                    let m = place_of(written@, fd, 0)->0;
                    lemma_placed(written@, fd, 0);
                    assert(writes[m].1 == (output.0@, output.1));
                    lemma_place_in_map(expected@, next);
                }
                let k: usize = find_key(expected, fd).unwrap();
                assert(says[next] == answers@[next]@);
                if test.1 != output.1 || !answers[k][j] {
                    assert(!output_agrees(patterns, writes, says, j as int, next));
                    return false;
                }
                assert forall|i: int| 0 <= i < common.place() implies #[trigger] output_agrees(
                    patterns,
                    writes,
                    says,
                    j as int,
                    i,
                ) by {
                    if from <= i < next {
                        lemma_skipped(expected@, written@, from, i);
                        lemma_place_of_views(written@, expected@[i].0, 0);
                    }
                }
            },
        }
    }
}

proof fn lemma_place_in_map<V>(entries: Seq<(i32, V)>, i: int)
    requires
        is_map(entries),
        0 <= i < entries.len(),
    ensures
        place_of(entries, entries[i].0, 0) == Some(i),
{
    lemma_place_from(entries, i, 0);
}

proof fn lemma_place_from<V>(entries: Seq<(i32, V)>, i: int, from: int)
    requires
        is_map(entries),
        0 <= from <= i < entries.len(),
    ensures
        place_of(entries, entries[i].0, from) == Some(i),
    decreases i - from,
{
    if from < i {
        assert(entries[from].0 != entries[i].0);
        lemma_place_from(entries, i, from + 1);
    }
}

proof fn lemma_next_common<V1, V2>(left: Seq<(i32, V1)>, right: Seq<(i32, V2)>, from: int)
    requires
        0 <= from,
    ensures
        next_common(left, right, from) matches Some(next) ==> from <= next < left.len(),
    decreases left.len() - from,
{
    if from < left.len() && place_of(right, left[from].0, 0) is None {
        lemma_next_common(left, right, from + 1);
    }
}

impl OutputTest {
    /// What is expected of a program whose first process starts no other.
    pub fn new(output: Vec<(i32, (SerdeRegex, bool))>, exit: Exited) -> (r: OutputTest)
        requires
            is_map(pattern_views(output@)),
        ensures
            r@ == seq![
                ExpectationView {
                    output: pattern_views(output@),
                    children: Multiset::empty(),
                    exit,
                },
            ],
            sound(r@),
    {
        let mut expectations: Vec<Expectation> = Vec::new();
        expectations.push(Expectation { output, children: empty(), exit });
        let r = OutputTest { expectations };
        assert(r@ =~= seq![
            ExpectationView { output: pattern_views(output@), children: Multiset::empty(), exit },
        ]);
        r
    }

    /// Adds what is expected of a process that process `parent` is to start.
    pub fn add(&mut self, parent: usize, output: Vec<(i32, (SerdeRegex, bool))>, exit: Exited)
        requires
            sound(old(self)@),
            is_map(pattern_views(output@)),
            parent < old(self)@.len() < u64::MAX,
        ensures
            final(self)@ == old(self)@.update(
                parent as int,
                ExpectationView {
                    children: old(self)@[parent as int].children.insert(old(self)@.len() as u64),
                    ..old(self)@[parent as int]
                },
            ).push(
                ExpectationView {
                    output: pattern_views(output@),
                    children: Multiset::empty(),
                    exit,
                },
            ),
            sound(final(self)@),
    {
        let ghost before = self@;
        let n: u64 = self.expectations.len() as u64;
        let mut expectation = self.expectations.remove(parent);
        assert(expectation@ == before[parent as int]);
        insert(&mut expectation.children, n);
        self.expectations.insert(parent, expectation);
        self.expectations.push(Expectation { output, children: empty(), exit });
        assert(self@ =~= before.update(
            parent as int,
            ExpectationView {
                children: before[parent as int].children.insert(n),
                ..before[parent as int]
            },
        ).push(
            ExpectationView { output: pattern_views(output@), children: Multiset::empty(), exit },
        ));
        assert forall|i: int, child: u64|
            0 <= i < self@.len() && #[trigger] self@[i].children.count(child) > 0 implies i < child
            < self@.len() by {
            if i < before.len() && (i != parent || child != n) {
                assert(before[i].children.count(child) > 0);
            }
        }
    }

    /// Asks each expression about what each process wrote.
    pub fn ask(&self, log: &Log) -> (r: Vec<Vec<Vec<bool>>>)
        ensures
            answer_views(r@) == asked(self@, log@),
            answered(answer_views(r@), self@, log@),
    {
        let ghost all = asked(self@, log@);
        let mut r: Vec<Vec<Vec<bool>>> = Vec::new();
        for i in 0..self.expectations.len()
            invariant
                all == asked(self@, log@),
                r@.len() == i,
                forall|n: int| 0 <= n < i ==> output_answers((#[trigger] r@[n])@) == all[n],
        {
            let test = &self.expectations[i];
            assert(self@[i as int] == test@);
            let mut of: Vec<Vec<bool>> = Vec::new();
            for k in 0..test.output.len()
                invariant
                    i < self@.len(),
                    self@[i as int] == test@,
                    all == asked(self@, log@),
                    of@.len() == k,
                    forall|n: int| 0 <= n < k ==> (#[trigger] of@[n])@ == all[i as int][n],
            {
                let row = ask_all(&test.output[k], log);
                assert(row@ =~= all[i as int][k as int]) by {
                    assert(test@.output[k as int] == (
                        test.output@[k as int].0,
                        (test.output@[k as int].1.0@, test.output@[k as int].1.1),
                    ));
                }
                of.push(row);
            }
            assert(output_answers(of@) =~= all[i as int]);
            r.push(of);
        }
        assert(answer_views(r@) =~= all);
        r
    }

    /// Whether what the program did is what is expected.
    pub fn is_match(&self, log: &Log) -> (r: bool)
        requires
            sound(self@),
            wf(log@),
            complete(log@),
            self@.len() > 0,
        ensures
            r == fits(self@, 0, log@, 0, asked(self@, log@)),
    {
        let answers = self.ask(log);
        self.decide(log, &answers)
    }

    /// Whether what the program did is what is expected, if the expressions answer
    /// so.
    pub fn decide(&self, log: &Log, answers: &Vec<Vec<Vec<bool>>>) -> (r: bool)
        requires
            sound(self@),
            wf(log@),
            complete(log@),
            self@.len() > 0,
            answered(answer_views(answers@), self@, log@),
        ensures
            r == fits(self@, 0, log@, 0, answer_views(answers@)),
    {
        self.match_process(0, log, 0, answers)
    }

    fn match_process(&self, i: usize, log: &Log, j: usize, answers: &Vec<Vec<Vec<bool>>>) -> (r:
        bool)
        requires
            sound(self@),
            wf(log@),
            i < self@.len(),
            j < log@.len(),
            answered(answer_views(answers@), self@, log@),
        ensures
            r == fits(self@, i as int, log@, j as int, answer_views(answers@)),
        decreases self@.len() - i, 1int,
    {
        let test = &self.expectations[i];
        let entry = &log.entries[j];
        let ghost says = answer_views(answers@);
        assert(self@[i as int] == test@);
        assert(log@[j as int] == entry@);
        match entry.exit {
            Some(exited) => if test.exit != exited {
                return false;
            },
            None => {
                return false;
            },
        }
        if test.output.len() != entry.output.len() || len(&test.children) != len(&entry.children) {
            return false;
        }
        proof {
            assert(says[i as int] == output_answers(answers@[i as int]@));
            assert forall|k: int| 0 <= k < answers@[i as int]@.len() implies j < (
            #[trigger] answers@[i as int]@[k])@.len() by {
                assert(says[i as int][k] == answers@[i as int]@[k]@);
            }
        }
        if !agree(&test.output, &entry.output, &answers[i], j) {
            return false;
        }
        assert(fits_itself(self@, i as int, log@, j as int, says));
        self.match_children(i, log, j, answers)
    }

    fn match_children(&self, i: usize, log: &Log, j: usize, answers: &Vec<Vec<Vec<bool>>>) -> (r:
        bool)
        requires
            sound(self@),
            wf(log@),
            answered(answer_views(answers@), self@, log@),
            i < self@.len(),
            j < log@.len(),
            fits_itself(self@, i as int, log@, j as int, answer_views(answers@)),
        ensures
            r == fits(self@, i as int, log@, j as int, answer_views(answers@)),
        decreases self@.len() - i, 0int,
    {
        let ghost tests = self@;
        let ghost all = log@;
        let ghost says = answer_views(answers@);
        let expected = list(&self.expectations[i].children);
        let started = list(&log.entries[j].children);
        assert(tests[i as int] == self.expectations@[i as int]@);
        assert(all[j as int] == log.entries@[j as int]@);
        proof {
            lemma_list(expected@, tests[i as int].children);
            lemma_list(started@, all[j as int].children);
        }
        let mut wanted: Vec<bool> = Vec::new();
        let mut met: Vec<bool> = Vec::new();
        for b in 0..started.len()
            invariant
                met@.len() == b,
                forall|k: int| 0 <= k < b ==> !#[trigger] met@[k],
        {
            met.push(false);
        }
        for a in 0..expected.len()
            invariant
                self@ == tests,
                log@ == all,
                sound(tests),
                wf(all),
                says == answer_views(answers@),
                answered(says, tests, all),
                i < tests.len(),
                j < all.len(),
                forall|k: u64| #[trigger]
                    tests[i as int].children.count(k) > 0 <==> expected@.contains(k),
                forall|k: u64| #[trigger]
                    all[j as int].children.count(k) > 0 <==> started@.contains(k),
                wanted@.len() == a,
                met@.len() == started@.len(),
                forall|k: int|
                    0 <= k < a ==> #[trigger] wanted@[k] == some_fits(
                        tests,
                        expected@[k] as int,
                        all,
                        started@,
                        started@.len() as int,
                        says,
                    ),
                forall|k: int|
                    0 <= k < met@.len() ==> #[trigger] met@[k] == fits_some(
                        tests,
                        expected@,
                        a as int,
                        all,
                        started@[k] as int,
                        says,
                    ),
        {
            proof {
                assert(expected@.contains(expected@[a as int]));
                assert(tests[i as int].children.count(expected@[a as int]) > 0);
                assert(self.expectations.len() == tests.len());
            }
            let t: usize = expected[a] as usize;
            let mut found = false;
            for b in 0..started.len()
                invariant
                    self@ == tests,
                    log@ == all,
                    sound(tests),
                    wf(all),
                    says == answer_views(answers@),
                    answered(says, tests, all),
                    i < t < tests.len(),
                    t == expected@[a as int],
                    a < expected@.len(),
                    j < all.len(),
                    forall|k: u64| #[trigger]
                        all[j as int].children.count(k) > 0 <==> started@.contains(k),
                    met@.len() == started@.len(),
                    found == some_fits(tests, t as int, all, started@, b as int, says),
                    forall|k: int|
                        b <= k < met@.len() ==> #[trigger] met@[k] == fits_some(
                            tests,
                            expected@,
                            a as int,
                            all,
                            started@[k] as int,
                            says,
                        ),
                    forall|k: int|
                        0 <= k < b ==> #[trigger] met@[k] == fits_some(
                            tests,
                            expected@,
                            a + 1,
                            all,
                            started@[k] as int,
                            says,
                        ),
            {
                proof {
                    assert(started@.contains(started@[b as int]));
                    assert(all[j as int].children.count(started@[b as int]) > 0);
                    assert(log.entries.len() == all.len());
                }
                let p: usize = started[b] as usize;
                let ghost before = met@;
                if !(found && met[b]) && self.match_process(t, log, p, answers) {
                    found = true;
                    met.set(b, true);
                }
                proof {
                    lemma_some_fits(tests, t as int, all, started@, b as int, says);
                    lemma_fits_some(tests, expected@, a as int, all, p as int, says);
                    assert forall|k: int| 0 <= k < b + 1 implies #[trigger] met@[k] == fits_some(
                        tests,
                        expected@,
                        a + 1,
                        all,
                        started@[k] as int,
                        says,
                    ) by {
                        if k < b {
                            assert(met@[k] == before[k]);
                        }
                    }
                    assert forall|k: int| b + 1 <= k < met@.len() implies #[trigger] met@[k]
                        == fits_some(tests, expected@, a as int, all, started@[k] as int, says) by {
                        assert(met@[k] == before[k]);
                    }
                }
            }
            wanted.push(found);
        }
        let all_wanted = all_true(&wanted);
        let all_met = all_true(&met);
        proof {
            lemma_children(tests, i as int, all, j as int, expected@, started@, says);
            if all_wanted && all_met {
                assert forall|k: int| 0 <= k < expected@.len() implies some_fits(
                    tests,
                    #[trigger] expected@[k] as int,
                    all,
                    started@,
                    started@.len() as int,
                    says,
                ) by {
                    assert(wanted@[k]);
                }
                assert forall|k: int| 0 <= k < started@.len() implies fits_some(
                    tests,
                    expected@,
                    expected@.len() as int,
                    all,
                    #[trigger] started@[k] as int,
                    says,
                ) by {
                    assert(met@[k]);
                }
            }
        }
        all_wanted && all_met
    }
}

/// Asks an expression about what each process wrote to its descriptor.
fn ask_all(test: &(i32, (SerdeRegex, bool)), log: &Log) -> (r: Vec<bool>)
    ensures
        r@ == Seq::new(
            log@.len(),
            |j: int| answer((test.0, (test.1.0@, test.1.1)), log@[j].output),
        ),
{
    let ghost view = (test.0, (test.1.0@, test.1.1));
    let mut r: Vec<bool> = Vec::new();
    for j in 0..log.entries.len()
        invariant
            view == (test.0, (test.1.0@, test.1.1)),
            r@.len() == j,
            forall|n: int| 0 <= n < j ==> #[trigger] r@[n] == answer(view, log@[n].output),
    {
        let written = &log.entries[j].output;
        proof {
            assert(log@[j as int] == log.entries@[j as int]@);
            lemma_place_of_views(written@, test.0, 0);
        }
        let matched = match find_key(written, test.0) {
            Some(m) => {
                assert(output_views(written@)[m as int].1.0 == written@[m as int].1.0@);
                test.1.0.is_match(&written[m].1.0)
            },
            None => false,
        };
        r.push(matched);
    }
    assert(r@ =~= Seq::new(log@.len(), |j: int| answer(view, log@[j].output)));
    r
}

fn all_true(flags: &Vec<bool>) -> (r: bool)
    ensures
        r == forall|k: int| 0 <= k < flags@.len() ==> #[trigger] flags@[k],
{
    for k in 0..flags.len()
        invariant
            forall|m: int| 0 <= m < k ==> #[trigger] flags@[m],
    {
        if !flags[k] {
            assert(!flags@[k as int]);
            return false;
        }
    }
    true
}

/// Whether one of the first `n` of `started` did what is expected in `tests[t]`.
pub open spec fn some_fits(
    tests: Seq<ExpectationView>,
    t: int,
    log: Seq<EntryView>,
    started: Seq<u64>,
    n: int,
    answers: Seq<Seq<Seq<bool>>>,
) -> bool {
    exists|k: int| 0 <= k < n && fits(tests, t, log, #[trigger] started[k] as int, answers)
}

/// Whether process `p` did what one of the first `n` of `expected` expects.
pub open spec fn fits_some(
    tests: Seq<ExpectationView>,
    expected: Seq<u64>,
    n: int,
    log: Seq<EntryView>,
    p: int,
    answers: Seq<Seq<Seq<bool>>>,
) -> bool {
    exists|k: int| 0 <= k < n && fits(tests, #[trigger] expected[k] as int, log, p, answers)
}

proof fn lemma_some_fits(
    tests: Seq<ExpectationView>,
    t: int,
    log: Seq<EntryView>,
    started: Seq<u64>,
    n: int,
    answers: Seq<Seq<Seq<bool>>>,
)
    requires
        0 <= n < started.len(),
    ensures
        some_fits(tests, t, log, started, n + 1, answers) == (some_fits(
            tests,
            t,
            log,
            started,
            n,
            answers,
        ) || fits(
            tests,
            t,
            log,
            started[n] as int,
            answers,
        )),
{
    if some_fits(tests, t, log, started, n, answers) {
        let k = choose|k: int| 0 <= k < n && fits(tests, t, log, #[trigger] started[k] as int, answers);
        assert(fits(tests, t, log, started[k] as int, answers));
    }
}

proof fn lemma_fits_some(
    tests: Seq<ExpectationView>,
    expected: Seq<u64>,
    n: int,
    log: Seq<EntryView>,
    p: int,
    answers: Seq<Seq<Seq<bool>>>,
)
    requires
        0 <= n < expected.len(),
    ensures
        fits_some(tests, expected, n + 1, log, p, answers) == (fits_some(
            tests,
            expected,
            n,
            log,
            p,
            answers,
        ) || fits(
            tests,
            expected[n] as int,
            log,
            p,
            answers,
        )),
{
    if fits_some(tests, expected, n, log, p, answers) {
        let k = choose|k: int| 0 <= k < n && fits(tests, #[trigger] expected[k] as int, log, p, answers);
        assert(fits(tests, expected[k] as int, log, p, answers));
    }
}

proof fn lemma_children(
    tests: Seq<ExpectationView>,
    i: int,
    log: Seq<EntryView>,
    j: int,
    expected: Seq<u64>,
    started: Seq<u64>,
    answers: Seq<Seq<Seq<bool>>>,
)
    requires
        in_order(tests),
        0 <= i < tests.len(),
        fits_itself(tests, i, log, j, answers),
        forall|k: u64| #[trigger] tests[i].children.count(k) > 0 <==> expected.contains(k),
        forall|k: u64| #[trigger] log[j].children.count(k) > 0 <==> started.contains(k),
    ensures
        fits(tests, i, log, j, answers) <==> {
            &&& forall|k: int|
                0 <= k < expected.len() ==> some_fits(
                    tests,
                    #[trigger] expected[k] as int,
                    log,
                    started,
                    started.len() as int,
                    answers,
                )
            &&& forall|k: int|
                0 <= k < started.len() ==> fits_some(
                    tests,
                    expected,
                    expected.len() as int,
                    log,
                    #[trigger] started[k] as int,
                    answers,
                )
        },
{
    if fits(tests, i, log, j, answers) {
        assert forall|k: int| 0 <= k < expected.len() implies some_fits(
            tests,
            #[trigger] expected[k] as int,
            log,
            started,
            started.len() as int,
            answers,
        ) by {
            let a = expected[k];
            assert(expected.contains(a));
            assert(tests[i].children.count(a) > 0);
            let b = choose|b: u64|
                #![trigger log[j].children.count(b)]
                log[j].children.count(b) > 0 && fits(tests, a as int, log, b as int, answers);
            assert(log[j].children.count(b) > 0 && fits(tests, a as int, log, b as int, answers));
            let m = choose|m: int| 0 <= m < started.len() && started[m] == b;
            assert(started[m] == b);
        }
        assert forall|k: int| 0 <= k < started.len() implies fits_some(
            tests,
            expected,
            expected.len() as int,
            log,
            #[trigger] started[k] as int,
            answers,
        ) by {
            let b = started[k];
            assert(started.contains(b));
            assert(log[j].children.count(b) > 0);
            let a = choose|a: u64|
                #![trigger tests[i].children.count(a)]
                tests[i].children.count(a) > 0 && i < a < tests.len() && fits(
                    tests,
                    a as int,
                    log,
                    b as int,
                    answers,
                );
            assert(tests[i].children.count(a) > 0 && fits(tests, a as int, log, b as int, answers));
            let m = choose|m: int| 0 <= m < expected.len() && expected[m] == a;
            assert(expected[m] == a);
        }
    }
    if (forall|k: int|
        0 <= k < expected.len() ==> some_fits(
            tests,
            #[trigger] expected[k] as int,
            log,
            started,
            started.len() as int,
            answers,
        )) && (forall|k: int|
        0 <= k < started.len() ==> fits_some(
            tests,
            expected,
            expected.len() as int,
            log,
            #[trigger] started[k] as int,
            answers,
        )) {
        assert forall|a: u64|
            #![trigger tests[i].children.count(a)]
            tests[i].children.count(a) > 0 implies i < a < tests.len() && exists|b: u64|
            #![trigger log[j].children.count(b)]
            log[j].children.count(b) > 0 && fits(tests, a as int, log, b as int, answers) by {
            let k = choose|k: int| 0 <= k < expected.len() && expected[k] == a;
            assert(some_fits(tests, expected[k] as int, log, started, started.len() as int, answers));
            let m = choose|m: int|
                0 <= m < started.len() && fits(
                    tests,
                    a as int,
                    log,
                    #[trigger] started[m] as int,
                    answers,
                );
            assert(started.contains(started[m]));
            assert(log[j].children.count(started[m]) > 0);
        }
        assert forall|b: u64|
            #![trigger log[j].children.count(b)]
            log[j].children.count(b) > 0 implies exists|a: u64|
            #![trigger tests[i].children.count(a)]
            tests[i].children.count(a) > 0 && i < a < tests.len() && fits(
                tests,
                a as int,
                log,
                b as int,
                answers,
            ) by {
            let k = choose|k: int| 0 <= k < started.len() && started[k] == b;
            assert(fits_some(tests, expected, expected.len() as int, log, started[k] as int, answers));
            let m = choose|m: int|
                0 <= m < expected.len() && fits(
                    tests,
                    #[trigger] expected[m] as int,
                    log,
                    b as int,
                    answers,
                );
            assert(expected.contains(expected[m]));
            assert(tests[i].children.count(expected[m]) > 0);
        }
    }
}

/// A process that ended otherwise than expected, or has not ended, does not match,
/// whatever else it did.
pub proof fn law_another_end_does_not_match(
    tests: Seq<ExpectationView>,
    i: int,
    log: Seq<EntryView>,
    j: int,
    answers: Seq<Seq<Seq<bool>>>,
)
    requires
        log[j].exit != Some(tests[i].exit),
    ensures
        !fits(tests, i, log, j, answers),
{
}

/// A process matches only if it wrote to as many descriptors as expected, and if on
/// each descriptor that both speak of, its bytes match the expression and the output
/// came to its end exactly if it was to.
pub proof fn law_other_output_does_not_match(
    tests: Seq<ExpectationView>,
    i: int,
    log: Seq<EntryView>,
    j: int,
    k: int,
    m: int,
)
    requires
        0 <= i < tests.len(),
        0 <= j < log.len(),
        is_map(log[j].output),
        0 <= k < tests[i].output.len(),
        0 <= m < log[j].output.len(),
        tests[i].output[k].0 == log[j].output[m].0,
        fits(tests, i, log, j, asked(tests, log)),
    ensures
        tests[i].output.len() == log[j].output.len(),
        tests[i].output[k].1.1 == log[j].output[m].1.1,
        regex_matches(tests[i].output[k].1.0, log[j].output[m].1.0),
{
    let answers = asked(tests, log);
    lemma_place_in_map(log[j].output, m);
    assert(output_agrees(tests[i].output, log[j].output, answers[i], j, k));
    assert(answers[i][k][j] == answer(tests[i].output[k], log[j].output));
}

/// A process matches only if it started as many processes as expected, each process
/// that is expected is matched by one that it started, and each that it started
/// matches one that is expected.
pub proof fn law_other_children_do_not_match(
    tests: Seq<ExpectationView>,
    i: int,
    log: Seq<EntryView>,
    j: int,
    answers: Seq<Seq<Seq<bool>>>,
    child: u64,
)
    requires
        fits(tests, i, log, j, answers),
    ensures
        tests[i].children.len() == log[j].children.len(),
        tests[i].children.count(child) > 0 ==> exists|b: u64| #[trigger]
            log[j].children.count(b) > 0 && fits(tests, child as int, log, b as int, answers),
        log[j].children.count(child) > 0 ==> exists|a: u64| #[trigger]
            tests[i].children.count(a) > 0 && fits(tests, a as int, log, child as int, answers),
{
}

/// A process that starts no other, as expected, and ended as expected, matches if it
/// wrote to the expected descriptors what their expressions match, each to its end or
/// not as expected.
pub proof fn law_what_does_as_expected_matches(
    tests: Seq<ExpectationView>,
    i: int,
    log: Seq<EntryView>,
    j: int,
)
    requires
        0 <= i < tests.len(),
        0 <= j < log.len(),
        log[j].exit == Some(tests[i].exit),
        tests[i].children =~= Multiset::empty(),
        log[j].children =~= Multiset::empty(),
        tests[i].output.len() == log[j].output.len(),
        is_map(log[j].output),
        forall|k: int|
            0 <= k < tests[i].output.len() ==> {
                &&& (#[trigger] tests[i].output[k]).0 == log[j].output[k].0
                &&& tests[i].output[k].1.1 == log[j].output[k].1.1
                &&& regex_matches(tests[i].output[k].1.0, log[j].output[k].1.0)
            },
    ensures
        fits(tests, i, log, j, asked(tests, log)),
{
    let answers = asked(tests, log);
    assert forall|k: int| 0 <= k < tests[i].output.len() implies #[trigger] output_agrees(
        tests[i].output,
        log[j].output,
        answers[i],
        j,
        k,
    ) by {
        assert(tests[i].output[k].0 == log[j].output[k].0);
        lemma_place_in_map(log[j].output, k);
        assert(answers[i][k][j] == answer(tests[i].output[k], log[j].output));
    }
}

} // verus!
