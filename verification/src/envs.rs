//! How a program is told by its environment in which way to run.

use crate::resources::Resources;
use crate::text::{chars, rest_is};
use vstd::prelude::*;

verus! {

/// Where a program runs.
#[derive(Copy, Clone, PartialEq, Eq, Debug, Structural)]
pub enum Deploy {
    /// On a cluster.
    Fabric,
}

/// How output is shown.
#[derive(Copy, Clone, PartialEq, Eq, Debug, Structural)]
pub enum Format {
    Human,
    Json,
}

/// A variable of the environment. A value that is not text is `None`.
#[derive(Clone, Debug)]
pub struct EnvVar {
    pub key: String,
    pub value: Option<String>,
}

/// Which family of variables is read.
#[derive(Copy, Clone, PartialEq, Eq, Debug, Structural)]
pub enum Family {
    Constellation,
    Deploy,
}

/// What a variable tells.
#[derive(Copy, Clone, PartialEq, Eq, Debug, Structural)]
pub enum Topic {
    Deploy,
    Version,
    Recce,
    Format,
    Resources,
}

/// What the environment tells. Of each topic: `None` if there is no such
/// variable, and `Some(None)` if its value makes no sense.
#[derive(Copy, Clone, Debug)]
pub struct Envs {
    pub deploy: Option<Option<Deploy>>,
    pub version: Option<Option<bool>>,
    pub recce: Option<Option<bool>>,
    pub format: Option<Option<Format>>,
    pub resources: Option<Option<Resources>>,
}

/// The name of the variable that tells of `topic`.
pub open spec fn variable(family: Family, topic: Topic) -> Seq<char> {
    match (family, topic) {
        (Family::Constellation, Topic::Deploy) => "CONSTELLATION"@,
        (Family::Constellation, Topic::Version) => "CONSTELLATION_VERSION"@,
        (Family::Constellation, Topic::Recce) => "CONSTELLATION_RECCE"@,
        (Family::Constellation, Topic::Format) => "CONSTELLATION_FORMAT"@,
        (Family::Constellation, Topic::Resources) => "CONSTELLATION_RESOURCES"@,
        (Family::Deploy, Topic::Deploy) => "DEPLOY"@,
        (Family::Deploy, Topic::Version) => "DEPLOY_VERSION"@,
        (Family::Deploy, Topic::Recce) => "DEPLOY_RECCE"@,
        (Family::Deploy, Topic::Format) => "DEPLOY_FORMAT"@,
        (Family::Deploy, Topic::Resources) => "DEPLOY_RESOURCES"@,
    }
}

/// The name of the variable that tells of `topic`.
pub fn variable_name(family: Family, topic: Topic) -> (r: &'static str)
    ensures
        r@ == variable(family, topic),
{
    match (family, topic) {
        (Family::Constellation, Topic::Deploy) => "CONSTELLATION",
        (Family::Constellation, Topic::Version) => "CONSTELLATION_VERSION",
        (Family::Constellation, Topic::Recce) => "CONSTELLATION_RECCE",
        (Family::Constellation, Topic::Format) => "CONSTELLATION_FORMAT",
        (Family::Constellation, Topic::Resources) => "CONSTELLATION_RESOURCES",
        (Family::Deploy, Topic::Deploy) => "DEPLOY",
        (Family::Deploy, Topic::Version) => "DEPLOY_VERSION",
        (Family::Deploy, Topic::Recce) => "DEPLOY_RECCE",
        (Family::Deploy, Topic::Format) => "DEPLOY_FORMAT",
        (Family::Deploy, Topic::Resources) => "DEPLOY_RESOURCES",
    }
}

/// Where the first variable of that name stands.
pub open spec fn position(env: Seq<EnvVar>, key: Seq<char>) -> Option<int>
    decreases env.len(),
{
    if env.len() == 0 {
        None
    } else if env[0].key@ == key {
        Some(0)
    } else {
        match position(env.skip(1), key) {
            Some(i) => Some(i + 1),
            None => None,
        }
    }
}

/// The value of the first variable of that name.
pub open spec fn lookup(env: Seq<EnvVar>, key: Seq<char>) -> Option<Option<Seq<char>>> {
    match position(env, key) {
        Some(i) => Some(
            match env[i].value {
                Some(value) => Some(value@),
                None => None,
            },
        ),
        None => None,
    }
}

/// A letter from `A` to `Z` as a small one; any other character as it is.
pub open spec fn lower_char(c: char) -> char {
    if 'A' <= c && c <= 'Z' {
        ((c as u32 + 32) as u32) as char
    } else {
        c
    }
}

/// `s` with its letters from `A` to `Z` as small ones.
pub open spec fn lower(s: Seq<char>) -> Seq<char> {
    Seq::new(s.len(), |i: int| lower_char(s[i]))
}

/// How a value reads as a place to run.
pub open spec fn as_deploy(value: Option<Seq<char>>) -> Option<Deploy> {
    match value {
        Some(value) if lower(value) == "fabric"@ => Some(Deploy::Fabric),
        _ => None,
    }
}

/// How a value reads as a flag.
pub open spec fn as_flag(value: Option<Seq<char>>) -> Option<bool> {
    match value {
        Some(value) if value == "0"@ => Some(false),
        Some(value) if value == "1"@ => Some(true),
        _ => None,
    }
}

/// How a value reads as a way to show output.
pub open spec fn as_format(value: Option<Seq<char>>) -> Option<Format> {
    match value {
        Some(value) if lower(value) == "human"@ => Some(Format::Human),
        Some(value) if lower(value) == "json"@ => Some(Format::Json),
        _ => None,
    }
}

proof fn lemma_position_bounds(env: Seq<EnvVar>, key: Seq<char>)
    ensures
        match position(env, key) {
            Some(i) => 0 <= i < env.len() && env[i].key@ == key && forall|j: int|
                0 <= j < i ==> (#[trigger] env[j]).key@ != key,
            None => forall|j: int| 0 <= j < env.len() ==> (#[trigger] env[j]).key@ != key,
        },
    decreases env.len(),
{
    if env.len() > 0 && env[0].key@ != key {
        let rest = env.skip(1);
        lemma_position_bounds(rest, key);
        match position(rest, key) {
            Some(i) => {
                assert(rest[i] == env[i + 1]);
                assert forall|j: int| 0 <= j < i + 1 implies (#[trigger] env[j]).key@ != key by {
                    if j > 0 {
                        assert(rest[j - 1] == env[j]);
                    }
                }
            },
            None => {
                assert forall|j: int| 0 <= j < env.len() implies (#[trigger] env[j]).key@ != key by {
                    if j > 0 {
                        assert(rest[j - 1] == env[j]);
                    }
                }
            },
        }
    }
}

proof fn lemma_position_unique(env: Seq<EnvVar>, key: Seq<char>, i: int)
    requires
        0 <= i < env.len(),
        env[i].key@ == key,
        forall|j: int| 0 <= j < i ==> (#[trigger] env[j]).key@ != key,
    ensures
        position(env, key) == Some(i),
{
    lemma_position_bounds(env, key);
    match position(env, key) {
        Some(k) => {
            if k < i {
                assert(env[k].key@ != key);
            }
            if i < k {
                assert(env[i].key@ != key);
            }
        },
        None => {
            assert(env[i].key@ != key);
        },
    }
}

/// The value of the first variable that tells of `topic`; `Some(None)` if it is
/// not text.
pub fn find(env: &Vec<EnvVar>, family: Family, topic: Topic) -> (r: Option<Option<String>>)
    ensures
        match r {
            Some(Some(value)) => lookup(env@, variable(family, topic)) == Some(Some(value@)),
            Some(None) => lookup(env@, variable(family, topic)) == Some(None::<Seq<char>>),
            None => lookup(env@, variable(family, topic)) is None,
        },
{
    let key = String::from_str(variable_name(family, topic));
    for i in 0..env.len()
        invariant
            key@ == variable(family, topic),
            forall|j: int| 0 <= j < i ==> (#[trigger] env@[j]).key@ != key@,
    {
        if env[i].key == key {
            proof {
                lemma_position_unique(env@, key@, i as int);
            }
            return match &env[i].value {
                Some(value) => Some(Some(value.clone())),
                None => Some(None),
            };
        }
    }
    proof {
        lemma_position_bounds(env@, key@);
    }
    None
}

/// `s` with its letters from `A` to `Z` as small ones.
fn lower_chars(s: &str) -> (r: Vec<char>)
    ensures
        r@ == lower(s@),
{
    let cs = chars(s);
    let mut r: Vec<char> = Vec::new();
    for i in 0..cs.len()
        invariant
            cs@ == s@,
            r.len() == i,
            forall|j: int| 0 <= j < i ==> r@[j] == lower_char(s@[j]),
    {
        let c = cs[i];
        if c >= 'A' && c <= 'Z' {
            r.push((c as u8 + 32) as char);
        } else {
            r.push(c);
        }
    }
    assert(r@ =~= lower(s@));
    r
}

fn read_flag(value: &Option<String>) -> (r: Option<bool>)
    ensures
        r == as_flag(
            match *value {
                Some(value) => Some(value@),
                None => None,
            },
        ),
{
    match value {
        Some(value) => {
            let cs = chars(value.as_str());
            assert(cs@.skip(0) =~= cs@);
            if rest_is(&cs, 0, "0") {
                Some(false)
            } else if rest_is(&cs, 0, "1") {
                Some(true)
            } else {
                None
            }
        },
        None => None,
    }
}

fn read_deploy(value: &Option<String>) -> (r: Option<Deploy>)
    ensures
        r == as_deploy(
            match *value {
                Some(value) => Some(value@),
                None => None,
            },
        ),
{
    match value {
        Some(value) => {
            let cs = lower_chars(value.as_str());
            assert(cs@.skip(0) =~= cs@);
            if rest_is(&cs, 0, "fabric") {
                Some(Deploy::Fabric)
            } else {
                None
            }
        },
        None => None,
    }
}

fn read_format(value: &Option<String>) -> (r: Option<Format>)
    ensures
        r == as_format(
            match *value {
                Some(value) => Some(value@),
                None => None,
            },
        ),
{
    match value {
        Some(value) => {
            let cs = lower_chars(value.as_str());
            assert(cs@.skip(0) =~= cs@);
            if rest_is(&cs, 0, "human") {
                Some(Format::Human)
            } else if rest_is(&cs, 0, "json") {
                Some(Format::Json)
            } else {
                None
            }
        },
        None => None,
    }
}

impl Format {
    /// Reads a way to show output, in small or capital letters.
    pub fn from_text(s: &str) -> (r: Option<Format>)
        ensures
            r == as_format(Some(s@)),
    {
        read_format(&Some(String::from_str(s)))
    }
}

impl Envs {
    /// What the variables of a family tell. `resources` is how the value of the
    /// variable that tells of resources reads, as `find` gives it.
    pub fn from(env: &Vec<EnvVar>, family: Family, resources: Option<Resources>) -> (r: Envs)
        ensures
            match lookup(env@, variable(family, Topic::Deploy)) {
                Some(value) => r.deploy == Some(as_deploy(value)),
                None => r.deploy is None,
            },
            match lookup(env@, variable(family, Topic::Version)) {
                Some(value) => r.version == Some(as_flag(value)),
                None => r.version is None,
            },
            match lookup(env@, variable(family, Topic::Recce)) {
                Some(value) => r.recce == Some(as_flag(value)),
                None => r.recce is None,
            },
            match lookup(env@, variable(family, Topic::Format)) {
                Some(value) => r.format == Some(as_format(value)),
                None => r.format is None,
            },
            match lookup(env@, variable(family, Topic::Resources)) {
                Some(_) => r.resources == Some(resources),
                None => r.resources is None,
            },
    {
        let deploy = match find(env, family, Topic::Deploy) {
            Some(value) => Some(read_deploy(&value)),
            None => None,
        };
        let version = match find(env, family, Topic::Version) {
            Some(value) => Some(read_flag(&value)),
            None => None,
        };
        let recce = match find(env, family, Topic::Recce) {
            Some(value) => Some(read_flag(&value)),
            None => None,
        };
        let format = match find(env, family, Topic::Format) {
            Some(value) => Some(read_format(&value)),
            None => None,
        };
        let resources = match find(env, family, Topic::Resources) {
            Some(_) => Some(resources),
            None => None,
        };
        Envs { deploy, version, recce, format, resources }
    }
}

/// Of several variables of one name the first counts: what comes behind it
/// changes nothing.
pub proof fn law_first_variable_counts(env: Seq<EnvVar>, more: Seq<EnvVar>, key: Seq<char>)
    requires
        lookup(env, key) is Some,
    ensures
        lookup(env + more, key) == lookup(env, key),
{
    lemma_position_bounds(env, key);
    let i = position(env, key).unwrap();
    assert forall|j: int| 0 <= j < i implies (#[trigger] (env + more)[j]).key@ != key by {
        assert((env + more)[j] == env[j]);
    }
    assert((env + more)[i] == env[i]);
    lemma_position_unique(env + more, key, i);
}

/// All variables of a family share its name, which alone is the name of one of them,
/// and each other adds a word of its own.
pub proof fn law_variables_share_the_name_of_their_family(family: Family)
    ensures
        ({
            let name = variable(family, Topic::Deploy);
            &&& variable(family, Topic::Version) == name + "_VERSION"@
            &&& variable(family, Topic::Recce) == name + "_RECCE"@
            &&& variable(family, Topic::Format) == name + "_FORMAT"@
            &&& variable(family, Topic::Resources) == name + "_RESOURCES"@
            &&& family is Constellation ==> name == "CONSTELLATION"@
            &&& family is Deploy ==> name == "DEPLOY"@
        }),
{
    reveal_strlit("CONSTELLATION");
    reveal_strlit("CONSTELLATION_VERSION");
    reveal_strlit("CONSTELLATION_RECCE");
    reveal_strlit("CONSTELLATION_FORMAT");
    reveal_strlit("CONSTELLATION_RESOURCES");
    reveal_strlit("DEPLOY");
    reveal_strlit("DEPLOY_VERSION");
    reveal_strlit("DEPLOY_RECCE");
    reveal_strlit("DEPLOY_FORMAT");
    reveal_strlit("DEPLOY_RESOURCES");
    reveal_strlit("_VERSION");
    reveal_strlit("_RECCE");
    reveal_strlit("_FORMAT");
    reveal_strlit("_RESOURCES");
    let name = variable(family, Topic::Deploy);
    assert(variable(family, Topic::Version) =~= name + "_VERSION"@);
    assert(variable(family, Topic::Recce) =~= name + "_RECCE"@);
    assert(variable(family, Topic::Format) =~= name + "_FORMAT"@);
    assert(variable(family, Topic::Resources) =~= name + "_RESOURCES"@);
}

/// No two variables have the same name.
pub proof fn law_variables_differ(family: Family, topic: Topic, other_family: Family, other: Topic)
    requires
        variable(family, topic) == variable(other_family, other),
    ensures
        family == other_family,
        topic == other,
{
    reveal_strlit("CONSTELLATION");
    reveal_strlit("CONSTELLATION_VERSION");
    reveal_strlit("CONSTELLATION_RECCE");
    reveal_strlit("CONSTELLATION_FORMAT");
    reveal_strlit("CONSTELLATION_RESOURCES");
    reveal_strlit("DEPLOY");
    reveal_strlit("DEPLOY_VERSION");
    reveal_strlit("DEPLOY_RECCE");
    reveal_strlit("DEPLOY_FORMAT");
    reveal_strlit("DEPLOY_RESOURCES");
    let (a, b) = (variable(family, topic), variable(other_family, other));
    assert(a.len() == b.len());
    assert(a[0] == b[0]);
}

/// Whoever stands first under a name is found, and what stands under other names
/// does not matter.
pub proof fn law_the_first_of_its_name_is_found(env: Seq<EnvVar>, i: int)
    requires
        0 <= i < env.len(),
        forall|j: int| 0 <= j < i ==> (#[trigger] env[j]).key@ != env[i].key@,
    ensures
        lookup(env, env[i].key@) == Some(
            match env[i].value {
                Some(value) => Some(value@),
                None => None,
            },
        ),
{
    lemma_position_unique(env, env[i].key@, i);
}

/// A name under which nothing stands is not found.
pub proof fn law_what_is_not_there_is_not_found(env: Seq<EnvVar>, key: Seq<char>)
    requires
        forall|j: int| 0 <= j < env.len() ==> (#[trigger] env[j]).key@ != key,
    ensures
        lookup(env, key) is None,
{
    lemma_position_bounds(env, key);
    if let Some(i) = position(env, key) {
        assert(env[i].key@ != key);
    }
}

proof fn lemma_lower_char(c: char)
    ensures
        lower_char(lower_char(c)) == lower_char(c),
        !('A' <= lower_char(c) && lower_char(c) <= 'Z'),
        !('A' <= c && c <= 'Z') ==> lower_char(c) == c,
        'A' <= c && c <= 'Z' ==> lower_char(c) as u32 == c as u32 + 32,
{
}

/// Words may be written in small and capital letters alike, and mean what they say;
/// a flag is one if it is set, and zero if it is not, and nothing else is a flag.
pub proof fn law_values_mean_what_they_say(value: Seq<char>)
    ensures
        as_format(Some(value)) == as_format(Some(lower(value))),
        as_deploy(Some(value)) == as_deploy(Some(lower(value))),
        as_format(Some("json"@)) == Some(Format::Json),
        as_format(Some("human"@)) == Some(Format::Human),
        as_format(Some(value)) is Some ==> value.len() == 4 || value.len() == 5,
        as_deploy(Some("fabric"@)) == Some(Deploy::Fabric),
        as_deploy(Some(value)) is Some ==> value.len() == 6,
        as_flag(Some(value)) == Some(true) <==> value == seq!['1'],
        as_flag(Some(value)) == Some(false) <==> value == seq!['0'],
        as_flag(None) is None && as_format(None) is None && as_deploy(None) is None,
{
    reveal_strlit("0");
    reveal_strlit("1");
    reveal_strlit("json");
    reveal_strlit("human");
    reveal_strlit("fabric");
    assert("0"@ =~= seq!['0']);
    assert("1"@ =~= seq!['1']);
    assert forall|i: int| 0 <= i < value.len() implies #[trigger] lower(lower(value))[i] == lower(
        value,
    )[i] by {
        lemma_lower_char(value[i]);
    }
    assert(lower(lower(value)) =~= lower(value));
    assert(lower("json"@) =~= "json"@);
    assert(lower("human"@) =~= "human"@);
    assert(lower("fabric"@) =~= "fabric"@);
    assert("json"@ != "human"@) by {
        assert("json"@.len() != "human"@.len());
    }
    assert(lower(value).len() == value.len());
    assert(seq!['0'][0] != seq!['1'][0]);
}

} // verus!
