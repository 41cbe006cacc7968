//! In which way a program starts.

use crate::envs::{Deploy, Envs, Family, Format};
use crate::resources::Resources;
use vstd::prelude::*;

verus! {

/// In which way a program starts.
#[derive(Copy, Clone, PartialEq, Eq, Debug, Structural)]
pub enum Startup {
    /// It shows its version and leaves.
    Version,
    /// It answers with its requirements and leaves.
    Recce(Resources),
    /// It is the first process of a program on this machine.
    First(Resources, Format),
    /// It was started beside its parent, with these resources.
    Beside(Resources),
    /// It was placed on a node, with these resources.
    Placed(Resources),
}

/// Why a program cannot start.
#[derive(Copy, Clone, PartialEq, Eq, Debug, Structural)]
pub enum StartupError {
    /// It is not clear whether to show the version.
    Version,
    /// It is not clear whether to answer with the requirements.
    Recce,
    /// It is not clear how to show output.
    Format,
    /// Both the version and the requirements are wanted.
    VersionAndRecce,
    /// It is not clear with which resources the process runs.
    Resources,
    /// The process was given other resources than it declares.
    OtherResources,
}

/// What a flag of the environment says; `None` if it makes no sense.
pub open spec fn flag(said: Option<Option<bool>>) -> Option<bool> {
    match said {
        Some(said) => said,
        None => Some(false),
    }
}

/// How output is to be shown; `None` if what is said of it makes no sense.
pub open spec fn shown(said: Option<Option<Format>>) -> Option<Format> {
    match said {
        Some(said) => said,
        None => Some(Format::Human),
    }
}

/// In which way a program starts that shows neither its version nor its
/// requirements.
pub open spec fn running(envs: Envs, declared: Resources, format: Format) -> Result<
    Startup,
    StartupError,
> {
    if envs.deploy == Some(Some(Deploy::Fabric)) {
        match envs.resources {
            Some(Some(resources)) => Ok(Startup::Placed(resources)),
            _ => Err(StartupError::Resources),
        }
    } else {
        match envs.resources {
            None => Ok(Startup::First(declared, format)),
            Some(Some(resources)) => Ok(Startup::Beside(resources)),
            Some(None) => Err(StartupError::Resources),
        }
    }
}

/// In which way a program starts. Programs of one family look at all of the
/// environment first, those of the other only as far as they need to.
pub open spec fn planned(family: Family, envs: Envs, declared: Resources) -> Result<
    Startup,
    StartupError,
> {
    match family {
        Family::Constellation => if flag(envs.version) is None {
            Err(StartupError::Version)
        } else if flag(envs.recce) is None {
            Err(StartupError::Recce)
        } else if shown(envs.format) is None {
            Err(StartupError::Format)
        } else if flag(envs.version) == Some(true) && flag(envs.recce) == Some(true) {
            Err(StartupError::VersionAndRecce)
        } else if flag(envs.version) == Some(true) {
            Ok(Startup::Version)
        } else if flag(envs.recce) == Some(true) {
            Ok(Startup::Recce(declared))
        } else {
            running(envs, declared, shown(envs.format)->0)
        },
        Family::Deploy => if flag(envs.version) is None {
            Err(StartupError::Version)
        } else if flag(envs.version) == Some(true) {
            Ok(Startup::Version)
        } else if flag(envs.recce) is None {
            Err(StartupError::Recce)
        } else if flag(envs.recce) == Some(true) {
            Ok(Startup::Recce(declared))
        } else if shown(envs.format) is None {
            Err(StartupError::Format)
        } else {
            running(envs, declared, shown(envs.format)->0)
        },
    }
}

fn read_flag(said: Option<Option<bool>>) -> (r: Option<bool>)
    ensures
        r == flag(said),
{
    match said {
        Some(said) => said,
        None => Some(false),
    }
}

fn read_format(said: Option<Option<Format>>) -> (r: Option<Format>)
    ensures
        r == shown(said),
{
    match said {
        Some(said) => said,
        None => Some(Format::Human),
    }
}

fn run(envs: &Envs, declared: Resources, format: Format) -> (r: Result<Startup, StartupError>)
    ensures
        r == running(*envs, declared, format),
{
    assert(envs.deploy matches Some(Some(deploy)) ==> deploy == Deploy::Fabric);
    match envs.deploy {
        Some(Some(Deploy::Fabric)) => match envs.resources {
            Some(Some(resources)) => Ok(Startup::Placed(resources)),
            _ => Err(StartupError::Resources),
        },
        _ => match envs.resources {
            None => Ok(Startup::First(declared, format)),
            Some(Some(resources)) => Ok(Startup::Beside(resources)),
            Some(None) => Err(StartupError::Resources),
        },
    }
}

/// In which way a program starts that declares `declared` as its requirements.
pub fn plan(family: Family, envs: &Envs, declared: Resources) -> (r: Result<Startup, StartupError>)
    ensures
        r == planned(family, *envs, declared),
{
    let version = match read_flag(envs.version) {
        Some(version) => version,
        None => {
            return Err(StartupError::Version);
        },
    };
    if let Family::Deploy = family {
        if version {
            return Ok(Startup::Version);
        }
    }
    let recce = match read_flag(envs.recce) {
        Some(recce) => recce,
        None => {
            return Err(StartupError::Recce);
        },
    };
    if let Family::Deploy = family {
        if recce {
            return Ok(Startup::Recce(declared));
        }
    }
    let format = match read_format(envs.format) {
        Some(format) => format,
        None => {
            return Err(StartupError::Format);
        },
    };
    if version && recce {
        Err(StartupError::VersionAndRecce)
    } else if version {
        Ok(Startup::Version)
    } else if recce {
        Ok(Startup::Recce(declared))
    } else {
        run(envs, declared, format)
    }
}

/// Whether a process that was placed on a node with `given` runs a part of a
/// program, handed over in `program`, or the program from its start. The latter
/// must have been given what it declares.
pub fn placed_part(declared: Resources, given: Resources, program: &Vec<u8>) -> (r: Result<
    bool,
    StartupError,
>)
    ensures
        r == (if program@.len() > 0 {
            Ok(true)
        } else if declared == given {
            Ok(false)
        } else {
            Err(StartupError::OtherResources)
        }),
{
    if program.len() > 0 {
        Ok(true)
    } else if declared == given {
        Ok(false)
    } else {
        Err(StartupError::OtherResources)
    }
}

/// Whether a tool shows its version: if it is asked on the command line, or else
/// in the environment.
pub fn shows_version(asked: bool, envs: &Envs) -> (r: Result<bool, StartupError>)
    ensures
        r == (if asked {
            Ok(true)
        } else {
            match flag(envs.version) {
                Some(version) => Ok(version),
                None => Err(StartupError::Version),
            }
        }),
{
    if asked {
        Ok(true)
    } else {
        match read_flag(envs.version) {
            Some(version) => Ok(version),
            None => Err(StartupError::Version),
        }
    }
}

/// How a tool shows output: as the command line says, or else the environment.
pub fn chosen_format(asked: Option<Format>, envs: &Envs) -> (r: Result<Format, StartupError>)
    ensures
        r == (match asked {
            Some(format) => Ok(format),
            None => match shown(envs.format) {
                Some(format) => Ok(format),
                None => Err(StartupError::Format),
            },
        }),
{
    match asked {
        Some(format) => Ok(format),
        None => match read_format(envs.format) {
            Some(format) => Ok(format),
            None => Err(StartupError::Format),
        },
    }
}

/// Why a program of `family` cannot start, in words.
pub open spec fn reason(family: Family, error: StartupError) -> Seq<char> {
    match (error, family) {
        (StartupError::Version, Family::Constellation) => "CONSTELLATION_VERSION must be 0 or 1"@,
        (StartupError::Version, Family::Deploy) => "DEPLOY_VERSION must be 0 or 1"@,
        (StartupError::Recce, Family::Constellation) => "CONSTELLATION_RECCE must be 0 or 1"@,
        (StartupError::Recce, Family::Deploy) => "DEPLOY_RECCE must be 0 or 1"@,
        (
            StartupError::Format,
            Family::Constellation,
        ) => "CONSTELLATION_FORMAT must be json or human"@,
        (StartupError::Format, Family::Deploy) => "DEPLOY_FORMAT must be json or human"@,
        (StartupError::VersionAndRecce, _) => "both the version and the requirements are asked for"@,
        (StartupError::Resources, _) => "no resources were given"@,
        (StartupError::OtherResources, _) => "other resources were given than are declared"@,
    }
}

impl StartupError {
    /// Why a program of `family` cannot start, in words.
    pub fn message(self, family: Family) -> (r: &'static str)
        ensures
            r@ == reason(family, self),
    {
        match (self, family) {
            (StartupError::Version, Family::Constellation) => "CONSTELLATION_VERSION must be 0 or 1",
            (StartupError::Version, Family::Deploy) => "DEPLOY_VERSION must be 0 or 1",
            (StartupError::Recce, Family::Constellation) => "CONSTELLATION_RECCE must be 0 or 1",
            (StartupError::Recce, Family::Deploy) => "DEPLOY_RECCE must be 0 or 1",
            (
                StartupError::Format,
                Family::Constellation,
            ) => "CONSTELLATION_FORMAT must be json or human",
            (StartupError::Format, Family::Deploy) => "DEPLOY_FORMAT must be json or human",
            (StartupError::VersionAndRecce, _) => "both the version and the requirements are asked for",
            (StartupError::Resources, _) => "no resources were given",
            (StartupError::OtherResources, _) => "other resources were given than are declared",
        }
    }
}

/// Where output goes that tells of the processes on a node.
#[derive(Copy, Clone, PartialEq, Eq, Debug, Structural)]
pub enum Telling {
    /// As a line of JSON.
    Json,
    /// As text for a person.
    Human,
    /// Nowhere.
    Nothing,
}

/// What is told of the processes on a node.
#[derive(Copy, Clone, PartialEq, Eq, Debug, Structural)]
pub struct Trace {
    pub format: Format,
    pub verbose: bool,
}

impl Trace {
    /// What is told if output is shown as `format`, and whether there is much of
    /// it.
    pub fn new(format: Format, verbose: bool) -> (r: Trace)
        ensures
            r == (Trace { format, verbose }),
    {
        Trace { format, verbose }
    }

    /// How an event on a node is told.
    pub fn fabric(&self) -> (r: Telling)
        ensures
            r == (if !self.verbose {
                Telling::Nothing
            } else if self.format == Format::Json {
                Telling::Json
            } else {
                Telling::Human
            }),
    {
        match (self.format, self.verbose) {
            (Format::Json, true) => Telling::Json,
            (Format::Human, true) => Telling::Human,
            _ => Telling::Nothing,
        }
    }
}

/// Both families start a program in the same way if the environment makes sense
/// and does not ask for both the version and the requirements.
pub proof fn law_families_agree(envs: Envs, declared: Resources)
    requires
        planned(Family::Constellation, envs, declared) is Ok,
    ensures
        planned(Family::Deploy, envs, declared) == planned(
            Family::Constellation,
            envs,
            declared,
        ),
{
}

/// A program runs with the resources that it was given, if it was given any, and
/// with those that it declares otherwise; and it does what the environment asks of
/// it, and nothing that the environment does not ask.
pub proof fn law_a_program_does_as_it_is_asked(family: Family, envs: Envs, declared: Resources)
    ensures
        match planned(family, envs, declared) {
            Ok(Startup::Version) => envs.version == Some(Some(true)),
            Ok(Startup::Recce(resources)) => envs.recce == Some(Some(true)) && envs.version
                != Some(Some(true)) && resources == declared,
            Ok(Startup::First(resources, format)) => resources == declared && envs.resources is None
                && envs.deploy != Some(Some(Deploy::Fabric)) && (format == Format::Json
                <==> envs.format == Some(Some(Format::Json))),
            Ok(Startup::Beside(resources)) => envs.resources == Some(Some(resources)) && envs.deploy
                != Some(Some(Deploy::Fabric)),
            Ok(Startup::Placed(resources)) => envs.resources == Some(Some(resources)) && envs.deploy
                == Some(Some(Deploy::Fabric)),
            Err(StartupError::Version) => envs.version == Some(None::<bool>),
            Err(StartupError::Recce) => envs.recce == Some(None::<bool>),
            Err(StartupError::Format) => envs.format == Some(None::<Format>),
            Err(StartupError::VersionAndRecce) => envs.version == Some(Some(true)) && envs.recce
                == Some(Some(true)),
            Err(StartupError::Resources) => envs.resources == Some(None::<Resources>) || (
            envs.resources is None && envs.deploy == Some(Some(Deploy::Fabric))),
            Err(StartupError::OtherResources) => false,
        },
{
}

/// A program that is asked for its version or for its requirements gives them, and
/// one that is asked for neither runs, if the environment makes sense.
pub proof fn law_a_program_that_is_asked_answers(family: Family, envs: Envs, declared: Resources)
    requires
        envs.version != Some(None::<bool>),
        envs.recce != Some(None::<bool>),
        envs.format != Some(None::<Format>),
        envs.resources != Some(None::<Resources>),
        envs.deploy == Some(Some(Deploy::Fabric)) ==> envs.resources is Some,
        !(envs.version == Some(Some(true)) && envs.recce == Some(Some(true))),
    ensures
        ({
            let start = planned(family, envs, declared);
            &&& start is Ok
            &&& envs.version == Some(Some(true)) <==> start->Ok_0 is Version
            &&& envs.recce == Some(Some(true)) <==> start->Ok_0 is Recce
        }),
{
}

/// Why a program cannot start is told apart by its words, whichever family the program
/// is of.
pub proof fn law_reasons_are_told_apart(family: Family, a: StartupError, b: StartupError)
    ensures
        reason(family, a) == reason(family, b) ==> a == b,
{
    reveal_strlit("CONSTELLATION_VERSION must be 0 or 1");
    reveal_strlit("DEPLOY_VERSION must be 0 or 1");
    reveal_strlit("CONSTELLATION_RECCE must be 0 or 1");
    reveal_strlit("DEPLOY_RECCE must be 0 or 1");
    reveal_strlit("CONSTELLATION_FORMAT must be json or human");
    reveal_strlit("DEPLOY_FORMAT must be json or human");
    reveal_strlit("both the version and the requirements are asked for");
    reveal_strlit("no resources were given");
    reveal_strlit("other resources were given than are declared");
    if reason(family, a) == reason(family, b) {
        assert(reason(family, a).len() == reason(family, b).len());
    }
}

} // verus!
