//! What becomes of a panic: an error of the file that was being processed,
//! and, for developers, the end of the run.
use crate::error;
use crate::error::EngineError;
use crate::error::EngineErrorView;
use crate::error::ErrorProfile;
use crate::error::FileError;
use crate::error::FileErrorView;
use crate::error::PanicPayload;
use crate::error::Stage;
use vstd::prelude::*;

verus! {

/// What became of processing a file at a stage: its own result, or, if it
/// panicked, that as an error of the file.
pub open spec fn settled<T>(
    path: Seq<char>,
    stage: Stage,
    outcome: Result<Result<T, FileError>, PanicPayload>,
    result: Result<T, FileError>,
) -> bool {
    match outcome {
        Ok(own) => result == own,
        Err(payload) => result matches Err(e) && e@ == (FileErrorView::RustPanic {
            path,
            stage,
            message: error::payload_text(payload),
        }),
    }
}

/// What became of processing a file at a stage.
pub fn settle_stage<T>(
    path: &str,
    stage: Stage,
    outcome: Result<Result<T, FileError>, PanicPayload>,
) -> (result: Result<T, FileError>)
    ensures
        settled(path@, stage, outcome, result),
{
    match outcome {
        Ok(own) => own,
        Err(payload) => Err(
            FileError::RustPanic {
                path: path.to_string(),
                stage,
                message: error::panic_message(&payload),
            },
        ),
    }
}

/// What became of processing a file as a whole: a panic counts as one while
/// parsing.
pub fn settle_file<T>(path: &str, outcome: Result<Result<T, FileError>, PanicPayload>) -> (result:
    Result<T, FileError>)
    ensures
        settled(path@, Stage::Parse, outcome, result),
{
    settle_stage(path, Stage::Parse, outcome)
}

/// Whether an error of a file ends the run: for developers a panic does.
pub open spec fn ends_run(error: FileErrorView, profile: ErrorProfile) -> Option<EngineErrorView> {
    match (profile, error) {
        (ErrorProfile::Dev, FileErrorView::RustPanic { path, message, .. }) => Some(
            EngineErrorView::AbortedOnPanic { file: path, message },
        ),
        _ => None,
    }
}

/// Whether an error of a file ends the run.
pub fn apply_batch_policy(file_error: &FileError, profile: ErrorProfile) -> (r: Result<
    (),
    EngineError,
>)
    ensures
        match r {
            Ok(()) => ends_run(file_error@, profile) is None,
            Err(error) => ends_run(file_error@, profile) == Some(error@),
        },
{
    match profile {
        ErrorProfile::Dev => match file_error {
            FileError::RustPanic { path, message, .. } => Err(
                EngineError::AbortedOnPanic { file: path.clone(), message: message.clone() },
            ),
            _ => Ok(()),
        },
        ErrorProfile::Prod => Ok(()),
    }
}

/// Nothing that befalls a single file ends a run in production.
pub proof fn law_production_never_ends_early(error: FileErrorView)
    ensures
        ends_run(error, ErrorProfile::Prod) is None,
{
}

/// Where developers look, a panic ends the run, and nothing else that befalls
/// a single file does.
pub proof fn law_only_panics_end_a_run(error: FileErrorView)
    ensures
        ends_run(error, ErrorProfile::Dev) is Some <==> error is RustPanic,
{
}

/// What a file comes to without a panic is what it comes to by itself, and a
/// panic is an error of that file, at that stage, in its own words.
pub proof fn law_panics_become_errors_of_their_file<T>(
    path: Seq<char>,
    stage: Stage,
    own: Result<T, FileError>,
    payload: PanicPayload,
    result: Result<T, FileError>,
)
    ensures
        settled(path, stage, Ok(own), result) <==> result == own,
        settled(path, stage, Err(payload), result) ==> {
            &&& result is Err
            &&& result->Err_0@ is RustPanic
            &&& error::error_path(result->Err_0@) == path
            &&& result->Err_0@->stage == stage
            &&& result->Err_0@->message == error::payload_text(payload)
        },
{
}

/// A run that a panic ends is told which file it was and what the panic said.
pub proof fn law_ended_runs_name_the_file(path: Seq<char>, stage: Stage, message: Seq<char>)
    ensures
        ends_run(FileErrorView::RustPanic { path, stage, message }, ErrorProfile::Dev) == Some(
            EngineErrorView::AbortedOnPanic { file: path, message },
        ),
{
}

} // verus!
