//! What a new process finds: its environment and its descriptors.

use crate::descriptors::{
    after_moves, Move, ARG_FD, BOUND_FD_START, FD_LIMIT, LISTENER_FD, RECCE_BINARY_FD,
    RECCE_FD,
};
use crate::envs::{lookup, position, variable, variable_name, EnvVar, Family, Topic};
use vstd::prelude::*;

verus! {

/// Whether `var` gives `key` the value `value`.
pub open spec fn sets(var: EnvVar, key: Seq<char>, value: Seq<char>) -> bool {
    var.key@ == key && var.value is Some && var.value->0@ == value
}

fn set(key: &str, value: &str) -> (r: EnvVar)
    ensures
        sets(r, key@, value@),
{
    EnvVar { key: String::from_str(key), value: Some(String::from_str(value)) }
}

/// Whether `environment` is that of a program that is asked for its
/// requirements: it is told so before all of `vars`.
pub open spec fn asks(environment: Seq<EnvVar>, family: Family, vars: Seq<EnvVar>) -> bool {
    &&& environment.len() == vars.len() + 2
    &&& sets(environment[0], variable(family, Topic::Deploy), "fabric"@)
    &&& sets(environment[1], variable(family, Topic::Recce), "1"@)
    &&& environment.skip(2) == vars
}

/// The environment of a program that is asked for its requirements.
pub fn recce_environment(family: Family, vars: Vec<EnvVar>) -> (r: Vec<EnvVar>)
    ensures
        asks(r@, family, vars@),
{
    let ghost all = vars@;
    let mut vars = vars;
    let mut r: Vec<EnvVar> = Vec::new();
    r.push(set(variable_name(family, Topic::Deploy), "fabric"));
    r.push(set(variable_name(family, Topic::Recce), "1"));
    r.append(&mut vars);
    assert(r@.skip(2) =~= all);
    r
}

/// The variables but for those of the given name.
pub open spec fn unnamed(vars: Seq<EnvVar>, name: Seq<char>) -> Seq<EnvVar>
    decreases vars.len(),
{
    if vars.len() == 0 {
        seq![]
    } else if vars.last().key@ == name {
        unnamed(vars.drop_last(), name)
    } else {
        unnamed(vars.drop_last(), name).push(vars.last())
    }
}

fn leave_out(vars: Vec<EnvVar>, name: &str) -> (r: Vec<EnvVar>)
    ensures
        r@ == unnamed(vars@, name@),
{
    let ghost all = vars@;
    let name = String::from_str(name);
    let mut vars = vars;
    let mut left: Vec<EnvVar> = Vec::new();
    let ghost mut n: int = all.len() as int;
    proof {
        assert(all.take(n) =~= all);
        assert(unnamed(all, name@) + left@.reverse() =~= unnamed(all, name@));
    }
    while vars.len() > 0
        invariant
            0 <= n <= all.len(),
            vars@ == all.take(n),
            unnamed(all, name@) == unnamed(all.take(n), name@) + left@.reverse(),
        decreases vars.len(),
    {
        let var = vars.pop().unwrap();
        proof {
            let some = all.take(n);
            assert(some.drop_last() =~= all.take(n - 1));
            assert(some.last() == var);
            n = n - 1;
        }
        let ghost before = left@;
        if !(var.key == name) {
            left.push(var);
            proof {
                let rest = unnamed(all.take(n), name@);
                assert(rest.push(var) + before.reverse() =~= rest + left@.reverse());
            }
        }
    }
    assert(all.take(n) =~= seq![]);
    assert(unnamed(all, name@) =~= left@.reverse());
    let ghost kept = left@;
    let ghost mut k: int = 0;
    let mut r: Vec<EnvVar> = Vec::new();
    while left.len() > 0
        invariant
            0 <= k <= kept.len(),
            left@ == kept.take(kept.len() - k),
            r@.len() == k,
            forall|i: int| 0 <= i < k ==> r@[i] == #[trigger] kept.reverse()[i],
        decreases left.len(),
    {
        let var = left.pop().unwrap();
        proof {
            assert(left@ =~= kept.take(kept.len() - k - 1));
            assert(kept.reverse()[k] == var);
            k = k + 1;
        }
        r.push(var);
    }
    assert(r@ =~= kept.reverse());
    r
}

/// The variables that the one who places processes leaves alone: those that say
/// nothing of the place, or, in the `DEPLOY` family, all of them.
pub open spec fn others(family: Family, vars: Seq<EnvVar>) -> Seq<EnvVar> {
    match family {
        Family::Constellation => unnamed(
            unnamed(vars, variable(family, Topic::Deploy)),
            variable(family, Topic::Resources),
        ),
        Family::Deploy => vars,
    }
}

/// Whether `environment` is that of a process that was placed on a node with
/// `resources`: it is told so first, whatever `vars` say of it.
pub open spec fn places(
    environment: Seq<EnvVar>,
    family: Family,
    resources: Seq<char>,
    vars: Seq<EnvVar>,
) -> bool {
    &&& environment.len() == others(family, vars).len() + 2
    &&& sets(environment[0], variable(family, Topic::Deploy), "fabric"@)
    &&& sets(environment[1], variable(family, Topic::Resources), resources)
    &&& environment.skip(2) == others(family, vars)
}

/// The environment of a process that is placed on a node.
pub fn fabric_environment(family: Family, resources: &str, vars: Vec<EnvVar>) -> (r: Vec<EnvVar>)
    ensures
        places(r@, family, resources@, vars@),
{
    let mut left = match family {
        Family::Constellation => leave_out(
            leave_out(vars, variable_name(family, Topic::Deploy)),
            variable_name(family, Topic::Resources),
        ),
        Family::Deploy => vars,
    };
    let ghost kept = left@;
    let mut r: Vec<EnvVar> = Vec::new();
    r.push(set(variable_name(family, Topic::Deploy), "fabric"));
    r.push(set(variable_name(family, Topic::Resources), resources));
    r.append(&mut left);
    assert(r@.skip(2) =~= kept);
    r
}

/// Whether `environment` is that of a process that is started beside its parent
/// with `resources`: what its parent has, but for what the parent was given, and
/// then those.
pub open spec fn extends(
    environment: Seq<EnvVar>,
    family: Family,
    resources: Seq<char>,
    vars: Seq<EnvVar>,
) -> bool {
    &&& environment.len() == unnamed(vars, variable(family, Topic::Resources)).len() + 1
    &&& environment.drop_last() == unnamed(vars, variable(family, Topic::Resources))
    &&& sets(environment.last(), variable(family, Topic::Resources), resources)
}

/// The environment of a process that is started beside its parent.
pub fn native_environment(family: Family, resources: &str, vars: Vec<EnvVar>) -> (r: Vec<EnvVar>)
    ensures
        extends(r@, family, resources@, vars@),
{
    let mut r = leave_out(vars, variable_name(family, Topic::Resources));
    let ghost kept = r@;
    r.push(set(variable_name(family, Topic::Resources), resources));
    assert(r@.drop_last() =~= kept);
    r
}

/// A variable as a process is handed it.
pub open spec fn entry_text(var: EnvVar) -> Seq<char> {
    var.key@ + "="@ + var.value->0@
}

/// A variable whose value is text, as a process is handed it.
pub fn entry(var: &EnvVar) -> (r: String)
    requires
        var.value is Some,
    ensures
        r@ == entry_text(*var),
{
    match &var.value {
        Some(value) => var.key.clone().concat("=").concat(value.as_str()),
        None => String::new(),
    }
}

/// A bare variable of an environment: neither its name nor its value need be
/// text.
#[derive(Clone, Debug)]
pub struct RawVar {
    pub key: Vec<u8>,
    pub value: Vec<u8>,
}

/// `bytes` without a zero at its end.
pub open spec fn without_last_zero(bytes: Seq<u8>) -> Seq<u8> {
    if bytes.len() > 0 && bytes.last() == 0 {
        bytes.drop_last()
    } else {
        bytes
    }
}

/// Where the first `byte` stands in `bytes` from `from` on; the length, if there
/// is none.
pub open spec fn next_byte(bytes: Seq<u8>, byte: u8, from: int) -> int
    decreases bytes.len() - from,
{
    if from >= bytes.len() || bytes[from] == byte {
        from
    } else {
        next_byte(bytes, byte, from + 1)
    }
}

/// `bytes` from `from` on, cut at each zero.
pub open spec fn cut(bytes: Seq<u8>, from: int) -> Seq<Seq<u8>>
    decreases bytes.len() - from, 1int,
{
    let end = next_byte(bytes, 0, from);
    if 0 <= from <= end < bytes.len() {
        seq![bytes.subrange(from, end)] + cut(bytes, end + 1)
    } else {
        seq![bytes.skip(from)]
    }
}

proof fn lemma_next_byte(bytes: Seq<u8>, byte: u8, from: int)
    requires
        0 <= from <= bytes.len(),
    ensures
        from <= next_byte(bytes, byte, from) <= bytes.len(),
        forall|i: int| from <= i < next_byte(bytes, byte, from) ==> bytes[i] != byte,
        next_byte(bytes, byte, from) < bytes.len() ==> bytes[next_byte(bytes, byte, from)] == byte,
    decreases bytes.len() - from,
{
    if from < bytes.len() && bytes[from] != byte {
        lemma_next_byte(bytes, byte, from + 1);
    }
}

fn find_byte(bytes: &Vec<u8>, byte: u8, from: usize, to: usize) -> (r: usize)
    requires
        from <= to <= bytes.len(),
    ensures
        from <= r <= to,
        r == next_byte(bytes@.take(to as int), byte, from as int),
{
    let mut i: usize = from;
    let ghost part = bytes@.take(to as int);
    while i < to && bytes[i] != byte
        invariant
            from <= i <= to <= bytes.len(),
            part == bytes@.take(to as int),
            next_byte(part, byte, from as int) == next_byte(part, byte, i as int),
        decreases to - i,
    {
        assert(part[i as int] == bytes@[i as int]);
        i += 1;
    }
    if i < to {
        assert(part[i as int] == bytes@[i as int]);
    }
    i
}

fn copied(bytes: &Vec<u8>, from: usize, to: usize) -> (r: Vec<u8>)
    requires
        from <= to <= bytes.len(),
    ensures
        r@ == bytes@.subrange(from as int, to as int),
{
    let mut r: Vec<u8> = Vec::new();
    for i in from..to
        invariant
            from <= i <= to <= bytes.len(),
            r@ == bytes@.subrange(from as int, i as int),
    {
        r.push(bytes[i]);
        assert(r@ =~= bytes@.subrange(from as int, i + 1));
    }
    r
}

/// The arguments of a process, read from how the system shows them: each of them
/// followed by a zero.
pub open spec fn arguments(bytes: Seq<u8>) -> Seq<Seq<u8>> {
    cut(without_last_zero(bytes), 0)
}

/// The views of several byte strings.
pub open spec fn views(items: Seq<Vec<u8>>) -> Seq<Seq<u8>> {
    items.map_values(|item: Vec<u8>| item@)
}

/// The arguments of a process, read from how the system shows them.
pub fn parse_arguments(bytes: &Vec<u8>) -> (r: Vec<Vec<u8>>)
    ensures
        views(r@) == arguments(bytes@),
{
    let mut to: usize = bytes.len();
    if to > 0 && bytes[to - 1] == 0 {
        to -= 1;
    }
    let ghost part = without_last_zero(bytes@);
    assert(part =~= bytes@.take(to as int));
    let mut r: Vec<Vec<u8>> = Vec::new();
    let mut from: usize = 0;
    assert(views(r@) + cut(part, 0) =~= cut(part, 0));
    loop
        invariant
            from <= to <= bytes.len(),
            part == bytes@.take(to as int),
            part == without_last_zero(bytes@),
            views(r@) + cut(part, from as int) == arguments(bytes@),
        decreases to - from,
    {
        let end: usize = find_byte(bytes, 0, from, to);
        let piece = copied(bytes, from, end);
        proof {
            assert(piece@ =~= part.subrange(from as int, end as int));
            if end == to {
                assert(part.skip(from as int) =~= piece@);
            }
            assert(views(r@.push(piece)) =~= views(r@).push(piece@));
        }
        let ghost before = views(r@);
        r.push(piece);
        if end == to {
            assert(views(r@) =~= before + seq![part.skip(from as int)]);
            return r;
        }
        assert(views(r@) + cut(part, end + 1) =~= before + cut(part, from as int));
        from = end + 1;
    }
}

/// How one entry of an environment reads. The name is all before the first `=`
/// that is not at the very start; without one there is nothing to read.
pub open spec fn entry_read(entry: Seq<u8>) -> Option<(Seq<u8>, Seq<u8>)> {
    let end = next_byte(entry, 0x3d, 1);
    if 1 <= end < entry.len() {
        Some((entry.take(end), entry.skip(end + 1)))
    } else {
        None
    }
}

/// How the entries of an environment read, those left out that do not.
pub open spec fn entries_read(entries: Seq<Seq<u8>>) -> Seq<(Seq<u8>, Seq<u8>)>
    decreases entries.len(),
{
    if entries.len() == 0 {
        seq![]
    } else {
        let rest = entries_read(entries.drop_last());
        match entry_read(entries.last()) {
            Some(read) => rest.push(read),
            None => rest,
        }
    }
}

/// The variables of an environment, as pairs of name and value.
pub open spec fn raw_views(vars: Seq<RawVar>) -> Seq<(Seq<u8>, Seq<u8>)> {
    vars.map_values(|var: RawVar| (var.key@, var.value@))
}

/// How one entry of an environment reads.
pub fn parse_entry(entry: &Vec<u8>) -> (r: Option<RawVar>)
    ensures
        match r {
            Some(var) => entry_read(entry@) == Some((var.key@, var.value@)),
            None => entry_read(entry@) is None,
        },
{
    if entry.len() == 0 {
        return None;
    }
    assert(entry@.take(entry.len() as int) =~= entry@);
    let end: usize = find_byte(entry, 0x3d, 1, entry.len());
    if end == entry.len() {
        return None;
    }
    let key = copied(entry, 0, end);
    let value = copied(entry, end + 1, entry.len());
    assert(key@ =~= entry@.take(end as int));
    assert(value@ =~= entry@.skip(end + 1));
    Some(RawVar { key, value })
}

/// The variables of a process, read from how the system shows them: each entry
/// followed by a zero.
pub fn parse_environment(bytes: &Vec<u8>) -> (r: Vec<RawVar>)
    ensures
        raw_views(r@) == entries_read(arguments(bytes@)),
{
    let entries = parse_arguments(bytes);
    let mut r: Vec<RawVar> = Vec::new();
    let ghost all = arguments(bytes@);
    assert(raw_views(r@) =~= entries_read(all.take(0)));
    for i in 0..entries.len()
        invariant
            views(entries@) == all,
            all == arguments(bytes@),
            raw_views(r@) == entries_read(all.take(i as int)),
    {
        proof {
            let some = all.take(i + 1);
            assert(some.drop_last() =~= all.take(i as int));
            assert(all[i as int] == views(entries@)[i as int]);
            assert(some.last() == entries@[i as int]@);
        }
        let ghost before = r@;
        if let Some(var) = parse_entry(&entries[i]) {
            r.push(var);
            assert(raw_views(r@) =~= raw_views(before).push((var.key@, var.value@)));
        }
    }
    assert(all.take(all.len() as int) =~= all);
    r
}

/// A name and a value that are joined with `=` read back as they were, if the
/// name is not empty and holds no `=` but at its start.
pub proof fn law_entries_read_back(key: Seq<u8>, value: Seq<u8>)
    requires
        key.len() > 0,
        forall|i: int| 1 <= i < key.len() ==> key[i] != 0x3d,
    ensures
        entry_read(key + seq![0x3du8] + value) == Some((key, value)),
{
    let entry = key + seq![0x3du8] + value;
    lemma_next_byte(entry, 0x3d, 1);
    let end = next_byte(entry, 0x3d, 1);
    assert(entry[key.len() as int] == 0x3d);
    if end > key.len() {
        assert(entry[key.len() as int] != 0x3d);
    }
    if end < key.len() {
        assert(entry[end] == key[end]);
    }
    assert(entry.take(end) =~= key);
    assert(entry.skip(end + 1) =~= value);
}

proof fn lemma_sets_first(environment: Seq<EnvVar>, i: int, key: Seq<char>, value: Seq<char>)
    requires
        0 <= i < environment.len(),
        sets(environment[i], key, value),
        forall|j: int| 0 <= j < i ==> (#[trigger] environment[j]).key@ != key,
    ensures
        lookup(environment, key) == Some(Some(value)),
    decreases environment.len(),
{
    if i > 0 {
        assert(environment[0].key@ != key);
        let rest = environment.skip(1);
        assert forall|j: int| 0 <= j < i - 1 implies (#[trigger] rest[j]).key@ != key by {
            assert(rest[j] == environment[j + 1]);
        }
        lemma_sets_first(rest, i - 1, key, value);
        lemma_lookup_skip(environment, key);
    }
}

proof fn lemma_position_bounds(environment: Seq<EnvVar>, key: Seq<char>)
    ensures
        position(environment, key) matches Some(i) ==> 0 <= i < environment.len(),
    decreases environment.len(),
{
    if environment.len() > 0 {
        lemma_position_bounds(environment.skip(1), key);
    }
}

proof fn lemma_lookup_skip(environment: Seq<EnvVar>, key: Seq<char>)
    requires
        environment.len() > 0,
        environment[0].key@ != key,
    ensures
        lookup(environment, key) == lookup(environment.skip(1), key),
{
    let rest = environment.skip(1);
    lemma_position_bounds(rest, key);
    match position(rest, key) {
        Some(i) => {
            assert(environment[i + 1] == rest[i]);
        },
        None => {},
    }
}

proof fn lemma_lookup_push(environment: Seq<EnvVar>, var: EnvVar, key: Seq<char>)
    ensures
        lookup(environment.push(var), key) == (if lookup(environment, key) is Some {
            lookup(environment, key)
        } else {
            lookup(seq![var], key)
        }),
    decreases environment.len(),
{
    let longer = environment.push(var);
    if environment.len() == 0 {
        assert(longer =~= seq![var]);
    } else if environment[0].key@ == key {
        assert(longer[0] == environment[0]);
    } else {
        lemma_lookup_push(environment.skip(1), var, key);
        assert(longer.skip(1) =~= environment.skip(1).push(var));
        lemma_lookup_skip(longer, key);
        lemma_lookup_skip(environment, key);
    }
}

proof fn lemma_unnamed(vars: Seq<EnvVar>, name: Seq<char>, key: Seq<char>)
    ensures
        lookup(unnamed(vars, name), key) == (if key == name {
            None
        } else {
            lookup(vars, key)
        }),
    decreases vars.len(),
{
    if vars.len() > 0 {
        let first = vars.drop_last();
        let last = vars.last();
        lemma_unnamed(first, name, key);
        assert(vars =~= first.push(last));
        lemma_lookup_push(first, last, key);
        lemma_lookup_push(unnamed(first, name), last, key);
        if last.key@ != key {
            assert(seq![last].skip(1) =~= seq![]);
            assert(position(Seq::<EnvVar>::empty(), key) is None);
            assert(position(seq![last], key) is None);
        }
    }
}

proof fn lemma_others(family: Family, vars: Seq<EnvVar>, key: Seq<char>)
    requires
        key != variable(family, Topic::Deploy),
        key != variable(family, Topic::Resources),
    ensures
        lookup(others(family, vars), key) == lookup(vars, key),
{
    let deploy = variable(family, Topic::Deploy);
    lemma_unnamed(vars, deploy, key);
    lemma_unnamed(unnamed(vars, deploy), variable(family, Topic::Resources), key);
}

/// A process that is placed on a node finds that it is, and what it was given,
/// whatever was in the environment before. All else it finds as it was.
pub proof fn law_placed_processes_know(
    environment: Seq<EnvVar>,
    family: Family,
    resources: Seq<char>,
    vars: Seq<EnvVar>,
    key: Seq<char>,
)
    requires
        places(environment, family, resources, vars),
    ensures
        lookup(environment, variable(family, Topic::Deploy)) == Some(Some("fabric"@)),
        lookup(environment, variable(family, Topic::Resources)) == Some(Some(resources)),
        key != variable(family, Topic::Deploy) && key != variable(family, Topic::Resources)
            ==> lookup(environment, key) == lookup(vars, key),
{
    lemma_names_differ(family);
    lemma_sets_first(environment, 0, variable(family, Topic::Deploy), "fabric"@);
    lemma_sets_first(environment, 1, variable(family, Topic::Resources), resources);
    if key != variable(family, Topic::Deploy) && key != variable(family, Topic::Resources) {
        lemma_lookup_skip(environment, key);
        lemma_lookup_skip(environment.skip(1), key);
        assert(environment.skip(1).skip(1) =~= environment.skip(2));
        lemma_others(family, vars, key);
    }
}

/// A program that is asked for its requirements finds that it is, whatever was
/// in the environment before. All else it finds as it was.
pub proof fn law_asked_programs_know(
    environment: Seq<EnvVar>,
    family: Family,
    vars: Seq<EnvVar>,
    key: Seq<char>,
)
    requires
        asks(environment, family, vars),
    ensures
        lookup(environment, variable(family, Topic::Deploy)) == Some(Some("fabric"@)),
        lookup(environment, variable(family, Topic::Recce)) == Some(Some("1"@)),
        key != variable(family, Topic::Deploy) && key != variable(family, Topic::Recce) ==> lookup(
            environment,
            key,
        ) == lookup(vars, key),
{
    lemma_names_differ(family);
    lemma_sets_first(environment, 0, variable(family, Topic::Deploy), "fabric"@);
    lemma_sets_first(environment, 1, variable(family, Topic::Recce), "1"@);
    if key != variable(family, Topic::Deploy) && key != variable(family, Topic::Recce) {
        lemma_lookup_skip(environment, key);
        lemma_lookup_skip(environment.skip(1), key);
        assert(environment.skip(1).skip(1) =~= environment.skip(2));
    }
}

/// A process that is started beside its parent finds what it was given, whatever
/// its parent was. All else it finds as its parent did.
pub proof fn law_native_processes_know(
    environment: Seq<EnvVar>,
    family: Family,
    resources: Seq<char>,
    vars: Seq<EnvVar>,
    key: Seq<char>,
)
    requires
        extends(environment, family, resources, vars),
    ensures
        lookup(environment, variable(family, Topic::Resources)) == Some(Some(resources)),
        key != variable(family, Topic::Resources) ==> lookup(environment, key) == lookup(vars, key),
{
    let last = environment.last();
    let name = variable(family, Topic::Resources);
    let kept = unnamed(vars, name);
    assert(environment =~= kept.push(last));
    lemma_unnamed(vars, name, key);
    lemma_unnamed(vars, name, name);
    lemma_lookup_push(kept, last, key);
    lemma_lookup_push(kept, last, name);
    lemma_sets_first(seq![last], 0, name, resources);
    assert(seq![last].skip(1) =~= seq![]);
    if key != name {
        assert(position(Seq::<EnvVar>::empty(), key) is None);
        assert(position(seq![last], key) is None);
    }
}

proof fn lemma_names_differ(family: Family)
    ensures
        variable(family, Topic::Deploy) != variable(family, Topic::Resources),
        variable(family, Topic::Deploy) != variable(family, Topic::Recce),
{
    reveal_strlit("CONSTELLATION");
    reveal_strlit("CONSTELLATION_RECCE");
    reveal_strlit("CONSTELLATION_RESOURCES");
    reveal_strlit("DEPLOY");
    reveal_strlit("DEPLOY_RECCE");
    reveal_strlit("DEPLOY_RESOURCES");
    assert("CONSTELLATION"@.len() != "CONSTELLATION_RECCE"@.len());
    assert("CONSTELLATION"@.len() != "CONSTELLATION_RESOURCES"@.len());
    assert("DEPLOY"@.len() != "DEPLOY_RECCE"@.len());
    assert("DEPLOY"@.len() != "DEPLOY_RESOURCES"@.len());
}

/// Which descriptors a process on a node is given besides its listener and its
/// argument.
#[derive(Copy, Clone, PartialEq, Eq, Debug)]
pub struct Given {
    /// The two ends by which it talks to the one who started it.
    pub host: Option<(i32, i32)>,
    /// Its binary.
    pub binary: Option<i32>,
    /// How many sockets are bound for it.
    pub bound: u16,
}

impl Given {
    /// How many descriptors it has to talk to the one who started it.
    pub open spec fn hosts(self) -> int {
        if self.host is Some {
            2
        } else {
            0
        }
    }

    /// Where the socket is put that was bound `i`th.
    pub open spec fn bound_at(self, i: int) -> int {
        BOUND_FD_START + self.hosts() + i
    }

    /// Where its binary is put: behind the bound sockets.
    pub open spec fn binary_at(self) -> int {
        self.bound_at(self.bound as int)
    }

    /// Which descriptors become which.
    pub open spec fn placed(self, listener: i32, arg: i32) -> Seq<Move> {
        let first = seq![
            Move { from: listener, to: LISTENER_FD },
            Move { from: arg, to: ARG_FD },
        ];
        let host = match self.host {
            Some((read, write)) => seq![
                Move { from: read, to: BOUND_FD_START },
                Move { from: write, to: (BOUND_FD_START + 1) as i32 },
            ],
            None => seq![],
        };
        let binary = match self.binary {
            Some(binary) => seq![Move { from: binary, to: self.binary_at() as i32 }],
            None => seq![],
        };
        first + host + binary
    }

    /// Whether descriptor `fd` is closed once the others are in their places.
    pub open spec fn drops(self, fd: i32) -> bool {
        self.bound_at(0) <= fd < FD_LIMIT && !(self.binary is Some && fd == self.binary_at())
    }

    fn host_count(&self) -> (r: i32)
        ensures
            r == self.hosts(),
    {
        if self.host.is_some() {
            2
        } else {
            0
        }
    }

    /// Where the socket is put that was bound `i`th.
    pub fn bound_fd(&self, i: u16) -> (r: i32)
        ensures
            r == self.bound_at(i as int),
    {
        BOUND_FD_START + self.host_count() + i as i32
    }

    /// Where its binary is put, if it is given it.
    pub fn binary_fd(&self) -> (r: Option<i32>)
        ensures
            match r {
                Some(fd) => self.binary is Some && fd == self.binary_at(),
                None => self.binary is None,
            },
    {
        match self.binary {
            Some(_) => Some(self.bound_fd(self.bound)),
            None => None,
        }
    }

    /// Which descriptors become which.
    pub fn placements(&self, listener: i32, arg: i32) -> (r: Vec<Move>)
        ensures
            r@ == self.placed(listener, arg),
    {
        let mut r: Vec<Move> = Vec::new();
        r.push(Move { from: listener, to: LISTENER_FD });
        r.push(Move { from: arg, to: ARG_FD });
        if let Some((read, write)) = self.host {
            r.push(Move { from: read, to: BOUND_FD_START });
            r.push(Move { from: write, to: BOUND_FD_START + 1 });
        }
        if let Some(binary) = self.binary {
            r.push(Move { from: binary, to: self.bound_fd(self.bound) });
        }
        assert(r@ =~= self.placed(listener, arg));
        r
    }

    /// Whether descriptor `fd` is closed once the others are in their places.
    pub fn closes(&self, fd: i32) -> (r: bool)
        ensures
            r == self.drops(fd),
    {
        fd >= self.bound_fd(0) && fd < FD_LIMIT && match self.binary_fd() {
            Some(binary) => fd != binary,
            None => true,
        }
    }
}

/// The places of all descriptors that a process on a node is given differ; none
/// of them is closed but those where bound sockets are to be put.
pub proof fn law_places_differ(given: Given, listener: i32, arg: i32, i: int, j: int)
    requires
        0 <= i < j < given.placed(listener, arg).len(),
    ensures
        given.placed(listener, arg)[i].to != given.placed(listener, arg)[j].to,
        !given.drops(given.placed(listener, arg)[i].to),
        !given.drops(given.placed(listener, arg)[j].to),
        forall|k: int|
            0 <= k < given.bound ==> #[trigger] given.bound_at(k) != given.placed(listener, arg)[i].to
                && given.bound_at(k) != given.placed(listener, arg)[j].to,
        forall|k: int|
            0 <= k < given.bound && given.bound_at(k) < FD_LIMIT ==> given.drops(
                #[trigger] given.bound_at(k) as i32,
            ),
{
}

/// Whether a process that is to start beside its parent closes descriptor `fd`
/// first. It keeps its listener and its argument, and what is from `reserved`
/// on.
pub open spec fn leaves_behind(fd: i32, listener: i32, arg: i32, reserved: Option<i32>) -> bool {
    &&& 3 <= fd < FD_LIMIT
    &&& fd != listener
    &&& fd != arg
    &&& (reserved matches Some(from) ==> fd < from)
}

/// Whether a process that is to start beside its parent closes descriptor `fd`
/// first.
pub fn closes_natively(fd: i32, listener: i32, arg: i32, reserved: Option<i32>) -> (r: bool)
    ensures
        r == leaves_behind(fd, listener, arg, reserved),
{
    fd >= 3 && fd < FD_LIMIT && fd != listener && fd != arg && match reserved {
        Some(from) => fd < from,
        None => true,
    }
}

/// The listener and the argument of a process that is to start beside its
/// parent, each with the place that it is moved to if it is not there.
pub open spec fn native_moves(listener: i32, arg: i32) -> Seq<Move> {
    let first = if listener == LISTENER_FD {
        seq![]
    } else {
        seq![Move { from: listener, to: LISTENER_FD }]
    };
    let second = if arg == ARG_FD {
        seq![]
    } else {
        seq![Move { from: arg, to: ARG_FD }]
    };
    first + second
}

/// Which descriptors are moved for a process that is to start beside its parent,
/// in this order.
pub fn native_placements(listener: i32, arg: i32) -> (r: Vec<Move>)
    ensures
        r@ == native_moves(listener, arg),
{
    let mut r: Vec<Move> = Vec::new();
    if listener != LISTENER_FD {
        r.push(Move { from: listener, to: LISTENER_FD });
    }
    if arg != ARG_FD {
        r.push(Move { from: arg, to: ARG_FD });
    }
    assert(r@ =~= native_moves(listener, arg));
    r
}

/// A process that starts beside its parent finds its listener and its argument,
/// if the argument was not where the listener is to be.
pub proof fn law_native_process_finds_both<F>(open: Map<i32, F>, listener: i32, arg: i32)
    requires
        open.dom().contains(listener),
        open.dom().contains(arg),
        listener != arg,
        arg != LISTENER_FD,
    ensures
        after_moves(open, native_moves(listener, arg)).dom().contains(LISTENER_FD),
        after_moves(open, native_moves(listener, arg))[LISTENER_FD] == open[listener],
        after_moves(open, native_moves(listener, arg)).dom().contains(ARG_FD),
        after_moves(open, native_moves(listener, arg))[ARG_FD] == open[arg],
{
    reveal_with_fuel(after_moves, 3);
    let moves = native_moves(listener, arg);
    if moves.len() > 0 {
        let rest = moves.skip(1);
        if rest.len() > 0 {
            assert(rest[0] == moves[1]);
            assert(rest.skip(1) =~= seq![]);
        } else {
            assert(rest =~= seq![]);
        }
    }
}

/// Whether a program that is to be asked for its requirements closes descriptor
/// `fd` first. It keeps its binary and where it is to answer.
pub fn closes_for_recce(fd: i32, binary: i32, answer: i32) -> (r: bool)
    ensures
        r == (0 <= fd < FD_LIMIT && fd != binary && fd != answer),
{
    fd >= 0 && fd < FD_LIMIT && fd != binary && fd != answer
}

/// Which descriptors become which for a program that is asked for its
/// requirements.
pub fn recce_placements(binary: i32, answer: i32) -> (r: Vec<Move>)
    ensures
        r@ == seq![
            Move { from: answer, to: RECCE_FD },
            Move { from: binary, to: RECCE_BINARY_FD },
        ],
{
    let mut r: Vec<Move> = Vec::new();
    r.push(Move { from: answer, to: RECCE_FD });
    r.push(Move { from: binary, to: RECCE_BINARY_FD });
    assert(r@ =~= seq![
        Move { from: answer, to: RECCE_FD },
        Move { from: binary, to: RECCE_BINARY_FD },
    ]);
    r
}

/// What the system shows of the arguments of a process: each followed by a zero.
pub open spec fn shown(arguments: Seq<Seq<u8>>) -> Seq<u8>
    decreases arguments.len(),
{
    if arguments.len() == 0 {
        seq![]
    } else {
        arguments[0] + seq![0u8] + shown(arguments.skip(1))
    }
}

proof fn lemma_next_byte_later(front: Seq<u8>, bytes: Seq<u8>, byte: u8, from: int)
    requires
        0 <= from <= bytes.len(),
    ensures
        next_byte(front + bytes, byte, front.len() + from) == front.len() + next_byte(
            bytes,
            byte,
            from,
        ),
    decreases bytes.len() - from,
{
    let all = front + bytes;
    if from < bytes.len() {
        assert(all[front.len() + from] == bytes[from]);
        if bytes[from] != byte {
            lemma_next_byte_later(front, bytes, byte, from + 1);
        }
    }
}

proof fn lemma_cut_later(front: Seq<u8>, bytes: Seq<u8>, from: int)
    requires
        0 <= from <= bytes.len(),
    ensures
        cut(front + bytes, front.len() + from) == cut(bytes, from),
    decreases bytes.len() - from,
{
    let all = front + bytes;
    let at = front.len() + from;
    lemma_next_byte_later(front, bytes, 0, from);
    lemma_next_byte(bytes, 0, from);
    let end = next_byte(bytes, 0, from);
    if end < bytes.len() {
        lemma_cut_later(front, bytes, end + 1);
        assert(all.subrange(at, front.len() + end) =~= bytes.subrange(from, end));
    } else {
        assert(all.skip(at) =~= bytes.skip(from));
    }
}

proof fn lemma_cut_first(first: Seq<u8>, rest: Seq<u8>)
    requires
        forall|i: int| 0 <= i < first.len() ==> first[i] != 0,
    ensures
        cut(first + seq![0u8] + rest, 0) == seq![first] + cut(rest, 0),
        cut(first, 0) == seq![first],
{
    let all = first + seq![0u8] + rest;
    let n = first.len() as int;
    lemma_next_byte(all, 0, 0);
    lemma_next_byte(first, 0, 0);
    let end = next_byte(all, 0, 0);
    assert(all[n] == 0);
    if end < n {
        assert(all[end] == first[end]);
    }
    assert(end == n);
    assert(all.subrange(0, n) =~= first);
    lemma_cut_later(first + seq![0u8], rest, 0);
    assert(first.skip(0) =~= first);
}

/// The arguments of a process are read as they are, from what the system shows of
/// them, and none is lost, be it empty or not.
pub proof fn law_arguments_read_back(all: Seq<Seq<u8>>)
    requires
        all.len() > 0,
        forall|i: int, j: int|
            0 <= i < all.len() && 0 <= j < all[i].len() ==> #[trigger] all[i][j] != 0,
    ensures
        arguments(shown(all)) == all,
    decreases all.len(),
{
    let first = all[0];
    let rest = all.skip(1);
    assert forall|j: int| 0 <= j < first.len() implies first[j] != 0 by {
        assert(all[0][j] != 0);
    }
    let bytes = shown(all);
    if all.len() == 1 {
        assert(shown(rest) =~= seq![]);
        assert(without_last_zero(bytes) =~= first);
        lemma_cut_first(first, seq![]);
        assert(all =~= seq![first]);
    } else {
        assert forall|i: int, j: int|
            0 <= i < rest.len() && 0 <= j < rest[i].len() implies #[trigger] rest[i][j] != 0 by {
            assert(rest[i] == all[i + 1]);
            assert(all[i + 1][j] != 0);
        }
        law_arguments_read_back(rest);
        let behind = shown(rest);
        lemma_shown_ends(rest);
        assert(bytes.last() == behind.last());
        assert(without_last_zero(bytes) =~= first + seq![0u8] + without_last_zero(behind));
        lemma_cut_first(first, without_last_zero(behind));
        assert(all =~= seq![first] + rest);
    }
}

proof fn lemma_shown_ends(all: Seq<Seq<u8>>)
    requires
        all.len() > 0,
    ensures
        shown(all).len() > 0,
        shown(all).last() == 0,
    decreases all.len(),
{
    if all.len() > 1 {
        lemma_shown_ends(all.skip(1));
        assert(shown(all).last() == shown(all.skip(1)).last());
    } else {
        assert(shown(all.skip(1)) =~= seq![]);
    }
}

/// The variables of a process are read as they are, in their order, if the names are
/// not empty and hold no `=` but at the start; an entry without a name or a `=` is
/// left out.
pub proof fn law_environments_read_back(
    entries: Seq<Seq<u8>>,
    key: Seq<u8>,
    value: Seq<u8>,
    other: Seq<u8>,
)
    requires
        key.len() > 0,
        forall|i: int| 1 <= i < key.len() ==> key[i] != 0x3d,
        forall|i: int| 1 <= i < other.len() ==> other[i] != 0x3d,
    ensures
        entries_read(entries.push(key + seq![0x3du8] + value)) == entries_read(entries).push(
            (key, value),
        ),
        entries_read(entries.push(other)) == entries_read(entries),
        entries_read(seq![]) == Seq::<(Seq<u8>, Seq<u8>)>::empty(),
{
    law_entries_read_back(key, value);
    assert(entries.push(key + seq![0x3du8] + value).drop_last() =~= entries);
    assert(entries.push(other).drop_last() =~= entries);
    if other.len() > 0 {
        lemma_next_byte(other, 0x3d, 1);
    }
}

/// A variable is handed to a process as its name, an equals sign and its value.
pub proof fn law_entries_name_their_variable(var: EnvVar)
    requires
        var.value is Some,
    ensures
        ({
            let text = entry_text(var);
            let n = var.key@.len() as int;
            &&& text.len() == n + 1 + var.value->0@.len()
            &&& text.take(n) == var.key@
            &&& text[n] == '='
            &&& text.skip(n + 1) == var.value->0@
        }),
{
    reveal_strlit("=");
    let text = entry_text(var);
    let n = var.key@.len() as int;
    assert(text.take(n) =~= var.key@);
    assert(text.skip(n + 1) =~= var.value->0@);
}

/// Variables are left out by their name and by nothing else, and the others keep
/// their order.
pub proof fn law_only_the_named_are_left_out(vars: Seq<EnvVar>, var: EnvVar, name: Seq<char>)
    ensures
        var.key@ == name ==> unnamed(vars.push(var), name) == unnamed(vars, name),
        var.key@ != name ==> unnamed(vars.push(var), name) == unnamed(vars, name).push(var),
        unnamed(seq![], name) == Seq::<EnvVar>::empty(),
{
    assert(vars.push(var).drop_last() =~= vars);
}

/// Where a process on a node finds what it is given: its listener at 3, its argument
/// at 4, then what it hears from the one who started it and what it tells it, then the
/// sockets that were bound for it, one behind the other, and behind them its binary.
/// All else below the limit is closed.
pub proof fn law_where_things_are_found(given: Given, listener: i32, arg: i32, fd: i32)
    ensures
        ({
            let moves = given.placed(listener, arg);
            let start: int = if given.host is Some {
                7
            } else {
                5
            };
            &&& moves.contains(Move { from: listener, to: 3 })
            &&& moves.contains(Move { from: arg, to: 4 })
            &&& given.host matches Some((read, write)) ==> moves.contains(
                Move { from: read, to: 5 },
            ) && moves.contains(Move { from: write, to: 6 })
            &&& given.binary matches Some(binary) ==> moves.contains(
                Move { from: binary, to: (start + given.bound) as i32 },
            )
            &&& moves.len() == start - 3 + (if given.binary is Some {
                1int
            } else {
                0
            })
            &&& given.bound_at(0) == start
            &&& fd < start ==> !given.drops(fd)
            &&& start <= fd < 1024 && fd != start + given.bound ==> given.drops(fd)
            &&& fd == start + given.bound && fd < 1024 ==> (given.drops(fd) <==> given.binary
                is None)
        }),
{
    let moves = given.placed(listener, arg);
    assert(moves[0] == Move { from: listener, to: 3 });
    assert(moves[1] == Move { from: arg, to: 4 });
    match given.host {
        Some((read, write)) => {
            assert(moves[2] == Move { from: read, to: 5 });
            assert(moves[3] == Move { from: write, to: 6 });
        },
        None => {},
    }
    match given.binary {
        Some(binary) => {
            assert(moves[moves.len() - 1] == Move { from: binary, to: given.binary_at() as i32 });
        },
        None => {},
    }
}

/// A process that is to start beside its parent keeps the three descriptors that every
/// process has, its listener, its argument and what is reserved; and it keeps no other
/// below the limit.
pub proof fn law_what_a_native_process_keeps(
    fd: i32,
    listener: i32,
    arg: i32,
    reserved: Option<i32>,
)
    ensures
        0 <= fd < 3 || fd == listener || fd == arg ==> !leaves_behind(fd, listener, arg, reserved),
        reserved is Some && fd >= reserved->0 ==> !leaves_behind(fd, listener, arg, reserved),
        3 <= fd < 1024 && fd != listener && fd != arg && reserved is None ==> leaves_behind(
            fd,
            listener,
            arg,
            reserved,
        ),
        3 <= fd < 1024 && fd != listener && fd != arg && (reserved is Some && fd < reserved->0)
            ==> leaves_behind(fd, listener, arg, reserved),
{
}

} // verus!
