//! Why a process could not be started.

use vstd::prelude::*;
use vstd::std_specs::convert::{FromSpec, FromSpecImpl, TryFromSpec, TryFromSpecImpl};

verus! {

/// Why a process could not be started at once.
#[derive(Copy, Clone, PartialEq, Eq, Debug, Structural)]
#[non_exhaustive]
pub enum TrySpawnError {
    /// No machine has room for it.
    NoCapacity,
    /// The program does not set itself up as the first thing that it does.
    Recce,
    /// For reasons unknown.
    Unknown,
}

/// Why a process could not be started.
#[derive(Copy, Clone, PartialEq, Eq, Debug, Structural)]
#[non_exhaustive]
pub enum SpawnError {
    /// The program does not set itself up as the first thing that it does.
    Recce,
    /// For reasons unknown.
    Unknown,
}

/// The same reason, as one that can keep a process from starting at once.
pub open spec fn widened(error: SpawnError) -> TrySpawnError {
    match error {
        SpawnError::Recce => TrySpawnError::Recce,
        SpawnError::Unknown => TrySpawnError::Unknown,
    }
}

/// The same reason, if it can keep a process from ever starting.
pub open spec fn narrowed(error: TrySpawnError) -> Result<SpawnError, ()> {
    match error {
        TrySpawnError::NoCapacity => Err(()),
        TrySpawnError::Recce => Ok(SpawnError::Recce),
        TrySpawnError::Unknown => Ok(SpawnError::Unknown),
    }
}

impl FromSpecImpl<SpawnError> for TrySpawnError {
    open spec fn obeys_from_spec() -> bool {
        true
    }

    open spec fn from_spec(error: SpawnError) -> TrySpawnError {
        widened(error)
    }
}

impl From<SpawnError> for TrySpawnError {
    fn from(error: SpawnError) -> TrySpawnError {
        match error {
            SpawnError::Recce => TrySpawnError::Recce,
            SpawnError::Unknown => TrySpawnError::Unknown,
        }
    }
}

impl TryFromSpecImpl<TrySpawnError> for SpawnError {
    open spec fn obeys_try_from_spec() -> bool {
        true
    }

    open spec fn try_from_spec(error: TrySpawnError) -> Result<SpawnError, ()> {
        narrowed(error)
    }
}

impl TryFrom<TrySpawnError> for SpawnError {
    type Error = ();

    fn try_from(error: TrySpawnError) -> Result<SpawnError, ()> {
        match error {
            TrySpawnError::NoCapacity => Err(()),
            TrySpawnError::Recce => Ok(SpawnError::Recce),
            TrySpawnError::Unknown => Ok(SpawnError::Unknown),
        }
    }
}

impl TrySpawnError {
    /// The reason in words.
    pub open spec fn message(&self) -> Seq<char> {
        match *self {
            TrySpawnError::NoCapacity =>
                "try_spawn() failed because the new process couldn't be allocated"@,
            TrySpawnError::Recce =>
                "try_spawn() because constellation::init() is not called immediately inside main()"@,
            TrySpawnError::Unknown => "try_spawn() failed for unknown reasons"@,
        }
    }

    /// The reason in words.
    pub fn to_string(&self) -> (r: String)
        ensures
            r@ == self.message(),
    {
        match *self {
            TrySpawnError::NoCapacity => String::from_str(
                "try_spawn() failed because the new process couldn't be allocated",
            ),
            TrySpawnError::Recce => String::from_str(
                "try_spawn() because constellation::init() is not called immediately inside main()",
            ),
            TrySpawnError::Unknown => String::from_str("try_spawn() failed for unknown reasons"),
        }
    }
}

impl SpawnError {
    /// The reason in words.
    pub open spec fn message(&self) -> Seq<char> {
        match *self {
            SpawnError::Recce =>
                "spawn() because constellation::init() is not called immediately inside main()"@,
            SpawnError::Unknown => "spawn() failed for unknown reasons"@,
        }
    }

    /// The reason in words.
    pub fn to_string(&self) -> (r: String)
        ensures
            r@ == self.message(),
    {
        match *self {
            SpawnError::Recce => String::from_str(
                "spawn() because constellation::init() is not called immediately inside main()",
            ),
            SpawnError::Unknown => String::from_str("spawn() failed for unknown reasons"),
        }
    }
}

/// Narrowing a widened reason gives it back, and only a lack of room cannot be
/// narrowed.
pub proof fn law_reasons_convert_back(error: SpawnError, other: TrySpawnError)
    ensures
        narrowed(widened(error)) == Ok::<SpawnError, ()>(error),
        narrowed(other) is Err <==> other == TrySpawnError::NoCapacity,
{
}

/// The reasons can be told apart by their words.
pub proof fn law_reasons_are_told_apart(
    a: TrySpawnError,
    b: TrySpawnError,
    c: SpawnError,
    d: SpawnError,
)
    ensures
        a.message() == b.message() ==> a == b,
        c.message() == d.message() ==> c == d,
{
    reveal_strlit("try_spawn() failed because the new process couldn't be allocated");
    reveal_strlit(
        "try_spawn() because constellation::init() is not called immediately inside main()",
    );
    reveal_strlit("try_spawn() failed for unknown reasons");
    reveal_strlit("spawn() because constellation::init() is not called immediately inside main()");
    reveal_strlit("spawn() failed for unknown reasons");
    if a.message() == b.message() {
        assert(a.message().len() == b.message().len());
    }
    if c.message() == d.message() {
        assert(c.message().len() == d.message().len());
    }
}

/// Converting a reason and back gives it again, and no reason becomes another.
pub proof fn law_conversions_keep_the_reason(error: SpawnError, other: TrySpawnError)
    ensures
        ({
            let wide = <TrySpawnError as FromSpec<SpawnError>>::from_spec(error);
            let back = <SpawnError as TryFromSpec<TrySpawnError>>::try_from_spec(wide);
            &&& back == Ok::<SpawnError, ()>(error)
            &&& wide == TrySpawnError::Recce <==> error == SpawnError::Recce
            &&& wide == TrySpawnError::Unknown <==> error == SpawnError::Unknown
        }),
        <SpawnError as TryFromSpec<TrySpawnError>>::try_from_spec(other) is Err <==> other
            == TrySpawnError::NoCapacity,
{
}

} // verus!
