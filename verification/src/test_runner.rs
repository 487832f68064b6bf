//! The test runner: what the collection of test binaries reports, and how a
//! failed build ends the run.

use vstd::prelude::*;

verus! {

/// What the collection of test binaries tells the runner.
#[derive(Debug, PartialEq, Eq)]
pub enum CollectionMessage<A> {
    /// A test binary has been built.
    ArtifactBuilt { artifact: A },
    /// The collection has failed.
    FatalError { error: String },
    /// The collection has come to its end.
    CollectionFinished,
}

/// What is told of the binaries: each that was built, in order, up to the
/// first failure, and then that failure.
pub open spec fn built_messages<A>(results: Seq<Result<A, String>>) -> Seq<CollectionMessage<A>>
    decreases results.len(),
{
    if results.len() == 0 {
        Seq::empty()
    } else {
        match results[0] {
            Ok(artifact) => seq![CollectionMessage::ArtifactBuilt { artifact }] + built_messages(
                results.drop_first(),
            ),
            Err(error) => seq![CollectionMessage::FatalError { error }],
        }
    }
}

/// How the build ended: with its failure, or with the end of the collection.
pub open spec fn end_message<A>(build: Result<(), String>) -> CollectionMessage<A> {
    match build {
        Ok(()) => CollectionMessage::CollectionFinished,
        Err(error) => CollectionMessage::FatalError { error },
    }
}

/// Says what the collection reports, given what came out of the stream of
/// binaries and how the build ended. The binaries are reported in order up
/// to the first that failed, which is reported as fatal; then the end of the
/// build is reported, as a failure or as the end of the collection.
pub fn collection_messages<A>(results: Vec<Result<A, String>>, build: Result<(), String>) -> (r: Vec<
    CollectionMessage<A>,
>)
    ensures
        r@ == built_messages(results@).push(end_message(build)),
{
    let mut messages: Vec<CollectionMessage<A>> = Vec::new();
    let mut turned: Vec<Result<A, String>> = Vec::new();
    let mut rest = results;
    while rest.len() > 0
        invariant
            rest@ + turned@.reverse() == results@,
        decreases rest@.len(),
    {
        let ghost before = rest@;
        let ghost turned0 = turned@;
        match rest.pop() {
            Some(v) => {
                turned.push(v);
                proof {
                    assert(turned@.reverse() =~= seq![v] + turned0.reverse());
                    assert(before =~= rest@.push(v));
                    assert(rest@ + turned@.reverse() =~= before + turned0.reverse());
                }
            },
            None => {},
        }
    }
    proof {
        assert(turned@.reverse() =~= results@);
        assert(messages@ + built_messages(results@) =~= built_messages(results@));
    }
    let mut failed = false;
    while turned.len() > 0 && !failed
        invariant
            !failed ==> messages@ + built_messages(turned@.reverse()) == built_messages(results@),
            failed ==> messages@ == built_messages(results@),
        decreases turned@.len() + if failed { 0int } else { 1int },
    {
        let ghost turned0 = turned@;
        let ghost messages0 = messages@;
        match turned.pop() {
            Some(Ok(artifact)) => {
                messages.push(CollectionMessage::ArtifactBuilt { artifact });
                proof {
                    let r0 = turned0.reverse();
                    assert(r0[0] == turned0[turned0.len() - 1]);
                    assert(r0.drop_first() =~= turned@.reverse());
                    assert(messages0.push(CollectionMessage::ArtifactBuilt { artifact })
                        + built_messages(turned@.reverse()) =~= messages0 + (seq![
                        CollectionMessage::ArtifactBuilt { artifact },
                    ] + built_messages(r0.drop_first())));
                }
            },
            Some(Err(error)) => {
                messages.push(CollectionMessage::FatalError { error });
                failed = true;
                proof {
                    let r0 = turned0.reverse();
                    assert(r0[0] == turned0[turned0.len() - 1]);
                    assert(messages0.push(CollectionMessage::FatalError { error }) =~= messages0
                        + seq![CollectionMessage::FatalError { error }]);
                }
            },
            None => {},
        }
    }
    proof {
        if !failed {
            assert(turned@.reverse() =~= Seq::empty());
            assert(messages@ + Seq::<CollectionMessage<A>>::empty() =~= messages@);
        }
    }
    match build {
        Ok(()) => {
            messages.push(CollectionMessage::CollectionFinished);
        },
        Err(error) => {
            messages.push(CollectionMessage::FatalError { error });
        },
    }
    messages
}

/// Why a run of the tests has failed.
#[derive(Debug, PartialEq, Eq)]
pub enum RunError {
    /// The build has failed. What it wrote to its standard error and the
    /// code it exited with are kept.
    Build { stderr: String, exit_code: u8 },
    /// Anything else.
    Other(String),
}

/// What the front end makes of the end of a run: a failed build is no error
/// of the front end; what the build wrote is shown, and the front end exits
/// as the build did. Anything else is passed on.
pub fn maybe_print_build_error(res: Result<u8, RunError>) -> (r: (Option<String>, Result<u8, String>))
    ensures
        match res {
            Ok(code) => r.0 is None && r.1 == Ok::<u8, String>(code),
            Err(RunError::Build { stderr, exit_code }) => r.0 == Some(stderr) && r.1 == Ok::<
                u8,
                String,
            >(exit_code),
            Err(RunError::Other(error)) => r.0 is None && r.1 == Err::<u8, String>(error),
        },
{
    match res {
        Ok(code) => (None, Ok(code)),
        Err(RunError::Build { stderr, exit_code }) => (Some(stderr), Ok(exit_code)),
        Err(RunError::Other(error)) => (None, Err(error)),
    }
}

} // verus!
