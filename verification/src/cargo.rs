//! What a build of a program gives, and the tool that builds and runs it.

use vstd::prelude::*;

verus! {

/// How an artifact was compiled.
#[derive(Clone, Debug)]
pub struct ArtifactProfile {
    pub opt_level: String,
    pub debuginfo: Option<u32>,
    pub debug_assertions: bool,
    pub overflow_checks: bool,
    pub test: bool,
}

/// What the compiler made of one target.
#[derive(Clone, Debug)]
pub struct Artifact {
    pub package_id: String,
    /// What kinds of target it is.
    pub kind: Vec<String>,
    pub profile: ArtifactProfile,
    pub features: Vec<String>,
    /// The files that were made.
    pub filenames: Vec<String>,
    pub fresh: bool,
}

/// What a build reports.
#[derive(Clone, Debug)]
pub enum Message {
    CompilerArtifact { artifact: Artifact },
    CompilerMessage {  },
    BuildScriptExecuted {  },
    Unknown,
}

/// Why no binary can be run.
#[derive(Copy, Clone, PartialEq, Eq, Debug, Structural)]
pub enum BinaryError {
    /// A binary does not consist of one file.
    NotOneFile,
    /// There are several binaries.
    Several,
    /// There is none.
    NoBinary,
}

/// Whether `message` tells of a binary.
pub open spec fn is_binary(message: Message) -> bool {
    message matches Message::CompilerArtifact { artifact } && artifact.kind@.len() == 1
        && artifact.kind@[0]@ == "bin"@
}

/// What is known after some messages: the binary, if there was one, or what is
/// wrong with the first message that does not fit.
pub open spec fn found(messages: Seq<Message>) -> Result<Option<Seq<char>>, BinaryError>
    decreases messages.len(),
{
    if messages.len() == 0 {
        Ok(None)
    } else {
        match found(messages.drop_last()) {
            Err(e) => Err(e),
            Ok(before) => if is_binary(messages.last()) {
                let files = messages.last()->artifact.filenames@;
                if files.len() != 1 {
                    Err(BinaryError::NotOneFile)
                } else if before is Some {
                    Err(BinaryError::Several)
                } else {
                    Ok(Some(files[0]@))
                }
            } else {
                Ok(before)
            },
        }
    }
}

fn tells_of_binary(message: &Message) -> (r: bool)
    ensures
        r == is_binary(*message),
{
    match message {
        Message::CompilerArtifact { artifact } => {
            let bin = String::from_str("bin");
            artifact.kind.len() == 1 && artifact.kind[0] == bin
        },
        _ => false,
    }
}

proof fn lemma_found_stays(messages: Seq<Message>, n: int)
    requires
        0 <= n <= messages.len(),
        found(messages.take(n)) is Err,
    ensures
        found(messages) == found(messages.take(n)),
    decreases messages.len(),
{
    if n < messages.len() {
        let first = messages.drop_last();
        assert(first.take(n) =~= messages.take(n));
        lemma_found_stays(first, n);
    } else {
        assert(messages.take(n) =~= messages);
    }
}

/// The one binary that a build made.
pub fn sole_binary(messages: &Vec<Message>) -> (r: Result<String, BinaryError>)
    ensures
        match r {
            Ok(file) => found(messages@) == Ok::<_, BinaryError>(Some(file@)),
            Err(e) => found(messages@) == Err::<Option<Seq<char>>, _>(e) || (e
                == BinaryError::NoBinary && found(messages@) == Ok::<_, BinaryError>(
                None::<Seq<char>>,
            )),
        },
{
    let mut bin: Option<String> = None;
    assert(found(messages@.take(0)) == Ok::<_, BinaryError>(None::<Seq<char>>));
    for i in 0..messages.len()
        invariant
            match bin {
                Some(file) => found(messages@.take(i as int)) == Ok::<_, BinaryError>(Some(file@)),
                None => found(messages@.take(i as int)) == Ok::<_, BinaryError>(None::<Seq<char>>),
            },
    {
        proof {
            assert(messages@.take(i + 1).drop_last() =~= messages@.take(i as int));
            assert(messages@.take(i + 1).last() == messages@[i as int]);
        }
        if tells_of_binary(&messages[i]) {
            if let Message::CompilerArtifact { artifact } = &messages[i] {
                if artifact.filenames.len() != 1 {
                    proof {
                        lemma_found_stays(messages@, i + 1);
                    }
                    return Err(BinaryError::NotOneFile);
                }
                if bin.is_some() {
                    proof {
                        lemma_found_stays(messages@, i + 1);
                    }
                    return Err(BinaryError::Several);
                }
                bin = Some(artifact.filenames[0].clone());
            }
        }
    }
    assert(messages@.take(messages@.len() as int) =~= messages@);
    match bin {
        Some(file) => Ok(file),
        None => Err(BinaryError::NoBinary),
    }
}

/// The arguments with which a program is built: to build it, to report on that
/// as JSON, and all of `arguments` but the first, which says where to run it.
pub open spec fn build_views(arguments: Seq<Seq<char>>) -> Seq<Seq<char>> {
    seq!["build"@, "--message-format=json"@] + arguments.skip(1)
}

/// The texts of several strings.
pub open spec fn texts(items: Seq<String>) -> Seq<Seq<char>> {
    items.map_values(|item: String| item@)
}

/// The arguments with which a program is built.
pub fn build_arguments(arguments: &Vec<String>) -> (r: Vec<String>)
    requires
        arguments.len() > 0,
    ensures
        texts(r@) == build_views(texts(arguments@)),
{
    let mut r: Vec<String> = Vec::new();
    r.push(String::from_str("build"));
    r.push(String::from_str("--message-format=json"));
    for i in 1..arguments.len()
        invariant
            1 <= i <= arguments.len(),
            r@.len() == i + 1,
            r@[0]@ == "build"@,
            r@[1]@ == "--message-format=json"@,
            forall|k: int| 1 <= k < i ==> r@[k + 1]@ == (#[trigger] arguments@[k])@,
    {
        r.push(arguments[i].clone());
    }
    proof {
        let built = build_views(texts(arguments@));
        assert forall|k: int| 0 <= k < built.len() implies #[trigger] texts(r@)[k] == built[k] by {
            if k >= 2 {
                assert(r@[(k - 1) + 1]@ == arguments@[k - 1]@);
            }
        }
        assert(texts(r@) =~= built);
    }
    r
}

/// The code with which the tool ends, after a run that ended with `code`, or
/// without one.
pub fn passed_code(code: Option<i32>) -> (r: i32)
    ensures
        r == (match code {
            Some(code) => code,
            None => 101,
        }),
{
    match code {
        Some(code) => code,
        None => 101,
    }
}

/// How many of `messages` tell of a binary.
pub open spec fn binaries(messages: Seq<Message>) -> nat
    decreases messages.len(),
{
    if messages.len() == 0 {
        0
    } else {
        binaries(messages.drop_last()) + if is_binary(messages.last()) {
            1nat
        } else {
            0
        }
    }
}

/// Whether each binary among `messages` consists of one file.
pub open spec fn one_file_each(messages: Seq<Message>) -> bool {
    forall|i: int|
        0 <= i < messages.len() && is_binary(#[trigger] messages[i])
            ==> messages[i]->artifact.filenames@.len() == 1
}

proof fn lemma_one_file_each(messages: Seq<Message>)
    requires
        messages.len() > 0,
    ensures
        one_file_each(messages) <==> one_file_each(messages.drop_last()) && (is_binary(
            messages.last(),
        ) ==> messages.last()->artifact.filenames@.len() == 1),
{
    let first = messages.drop_last();
    if one_file_each(messages) {
        assert forall|i: int| 0 <= i < first.len() && is_binary(#[trigger] first[i]) implies first[i]->artifact.filenames@.len()
            == 1 by {
            assert(messages[i] == first[i]);
        }
        assert(messages[messages.len() - 1] == messages.last());
    }
    if one_file_each(first) && (is_binary(messages.last()) ==> messages.last()->artifact.filenames@.len()
        == 1) {
        assert forall|i: int| 0 <= i < messages.len() && is_binary(#[trigger] messages[i]) implies messages[i]->artifact.filenames@.len()
            == 1 by {
            if i < first.len() {
                assert(first[i] == messages[i]);
            }
        }
    }
}

proof fn lemma_no_binaries(messages: Seq<Message>)
    requires
        binaries(messages) == 0,
    ensures
        one_file_each(messages),
    decreases messages.len(),
{
    if messages.len() > 0 {
        lemma_no_binaries(messages.drop_last());
        lemma_one_file_each(messages);
    }
}

/// A binary is found exactly if there is one alone and it consists of one file.
pub proof fn law_there_is_one_binary(messages: Seq<Message>)
    ensures
        (found(messages) is Ok && found(messages)->Ok_0 is Some) <==> binaries(messages) == 1
            && one_file_each(messages),
        (found(messages) is Ok && found(messages)->Ok_0 is None) <==> binaries(messages) == 0,
    decreases messages.len(),
{
    if messages.len() > 0 {
        let first = messages.drop_last();
        law_there_is_one_binary(first);
        lemma_one_file_each(messages);
        if binaries(first) == 0 {
            lemma_no_binaries(first);
        }
    }
}

/// What is found is the file of a binary that the build tells of, and a build fails
/// for a reason that is there.
pub proof fn law_what_is_found_is_a_binary(messages: Seq<Message>)
    ensures
        match found(messages) {
            Ok(Some(file)) => exists|i: int|
                0 <= i < messages.len() && (#[trigger] messages[i]
                    matches Message::CompilerArtifact { artifact } && artifact.kind@.len() == 1
                    && artifact.kind@[0]@ == "bin"@ && artifact.filenames@.len() == 1
                    && artifact.filenames@[0]@ == file),
            Ok(None) => forall|i: int|
                0 <= i < messages.len() ==> !(#[trigger] messages[i]
                    matches Message::CompilerArtifact { artifact } && artifact.kind@.len() == 1
                    && artifact.kind@[0]@ == "bin"@),
            Err(BinaryError::NotOneFile) => exists|i: int|
                0 <= i < messages.len() && (#[trigger] messages[i]
                    matches Message::CompilerArtifact { artifact } && artifact.kind@.len() == 1
                    && artifact.kind@[0]@ == "bin"@ && artifact.filenames@.len() != 1),
            Err(BinaryError::Several) => binaries(messages) >= 2,
            Err(BinaryError::NoBinary) => false,
        },
    decreases messages.len(),
{
    if messages.len() > 0 {
        let first = messages.drop_last();
        law_what_is_found_is_a_binary(first);
        law_there_is_one_binary(first);
        let n = messages.len() - 1;
        assert(messages[n] == messages.last());
        assert forall|i: int| 0 <= i < n implies #[trigger] messages[i] == first[i] by {}
        match found(first) {
            Ok(Some(file)) => {
                let i = choose|i: int|
                    0 <= i < first.len() && (#[trigger] first[i]
                        matches Message::CompilerArtifact { artifact } && artifact.kind@.len() == 1
                        && artifact.kind@[0]@ == "bin"@ && artifact.filenames@.len() == 1
                        && artifact.filenames@[0]@ == file);
                assert(messages[i] == first[i]);
            },
            Ok(None) => {
                if !is_binary(messages.last()) {
                    assert forall|i: int| 0 <= i < messages.len() implies !(#[trigger] messages[i]
                        matches Message::CompilerArtifact { artifact } && artifact.kind@.len() == 1
                        && artifact.kind@[0]@ == "bin"@) by {
                        if i < n {
                            assert(messages[i] == first[i]);
                        }
                    }
                }
            },
            Err(BinaryError::NotOneFile) => {
                let i = choose|i: int|
                    0 <= i < first.len() && (#[trigger] first[i]
                        matches Message::CompilerArtifact { artifact } && artifact.kind@.len() == 1
                        && artifact.kind@[0]@ == "bin"@ && artifact.filenames@.len() != 1);
                assert(messages[i] == first[i]);
            },
            Err(_) => {},
        }
    }
}

/// A build is given all arguments but the place to run, in their order, behind two
/// of its own.
pub proof fn law_a_build_is_given_the_rest(arguments: Seq<Seq<char>>, k: int)
    requires
        1 <= k < arguments.len(),
    ensures
        build_views(arguments).len() == arguments.len() + 1,
        build_views(arguments)[k + 1] == arguments[k],
        build_views(arguments)[0] == "build"@,
        build_views(arguments)[1] == "--message-format=json"@,
{
}

} // verus!
