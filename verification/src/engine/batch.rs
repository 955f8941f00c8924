//! Batches: one result for each file, with what succeeded and what failed
//! kept apart.
use crate::error::FileError;
use crate::error::FileErrorView;
use vstd::prelude::*;

verus! {

/// The values among `results`, in order.
pub open spec fn successes<T, E>(results: Seq<Result<T, E>>) -> Seq<T>
    decreases results.len(),
{
    if results.len() == 0 {
        Seq::empty()
    } else {
        match results.last() {
            Ok(value) => successes(results.drop_last()).push(value),
            Err(_) => successes(results.drop_last()),
        }
    }
}

/// The errors among `results`, in order.
pub open spec fn failures<T, E>(results: Seq<Result<T, E>>) -> Seq<E>
    decreases results.len(),
{
    if results.len() == 0 {
        Seq::empty()
    } else {
        match results.last() {
            Ok(_) => failures(results.drop_last()),
            Err(error) => failures(results.drop_last()).push(error),
        }
    }
}

/// All that the values among `results` hold, one after another.
pub open spec fn collected<T, E>(results: Seq<Result<Seq<T>, E>>) -> Seq<T>
    decreases results.len(),
{
    if results.len() == 0 {
        Seq::empty()
    } else {
        match results.last() {
            Ok(values) => collected(results.drop_last()) + values,
            Err(_) => collected(results.drop_last()),
        }
    }
}

/// File errors by their characters.
pub open spec fn errors_view(errors: Seq<FileError>) -> Seq<FileErrorView> {
    errors.map_values(|e: FileError| e@)
}

/// Each file of a batch is counted once: as a value or as a failure.
pub proof fn law_every_file_is_accounted_for<T, E>(results: Seq<Result<T, E>>)
    ensures
        successes(results).len() + failures(results).len() == results.len(),
    decreases results.len(),
{
    if results.len() > 0 {
        law_every_file_is_accounted_for(results.drop_last());
    }
}

/// A file that fails leaves no trace among the values, and what comes before
/// and after it is what it would be without it.
pub proof fn law_failures_do_not_stop_a_batch<T, E>(
    before: Seq<Result<T, E>>,
    error: E,
    after: Seq<Result<T, E>>,
)
    ensures
        successes(before.push(Err(error)) + after) == successes(before + after),
    decreases after.len(),
{
    if after.len() == 0 {
        assert(before.push(Err::<T, E>(error)) + after =~= before.push(Err::<T, E>(error)));
        assert(before + after =~= before);
        assert(before.push(Err::<T, E>(error)).drop_last() =~= before);
    } else {
        law_failures_do_not_stop_a_batch(before, error, after.drop_last());
        assert((before.push(Err::<T, E>(error)) + after).drop_last() =~= before.push(
            Err::<T, E>(error),
        ) + after.drop_last());
        assert((before + after).drop_last() =~= before + after.drop_last());
    }
}

/// A batch takes its files one by one: what succeeds goes to the values, what
/// fails to the errors.
pub proof fn law_batches_grow_file_by_file<T, E>(results: Seq<Result<T, E>>, value: T, error: E)
    ensures
        successes(Seq::<Result<T, E>>::empty()).len() == 0,
        failures(Seq::<Result<T, E>>::empty()).len() == 0,
        successes(results.push(Ok(value))) == successes(results).push(value),
        failures(results.push(Ok(value))) == failures(results),
        successes(results.push(Err(error))) == successes(results),
        failures(results.push(Err(error))) == failures(results).push(error),
{
    assert(results.push(Ok(value)).drop_last() =~= results);
    assert(results.push(Err(error)).drop_last() =~= results);
}

/// What the files of a batch hold stands one after another; a file that fails
/// holds nothing.
pub proof fn law_what_files_hold_stands_in_order<T, E>(
    results: Seq<Result<Seq<T>, E>>,
    values: Seq<T>,
    error: E,
)
    ensures
        collected(Seq::<Result<Seq<T>, E>>::empty()).len() == 0,
        collected(results.push(Ok(values))) == collected(results) + values,
        collected(results.push(Err(error))) == collected(results),
{
    assert(results.push(Ok(values)).drop_last() =~= results);
    assert(results.push(Err(error)).drop_last() =~= results);
}

} // verus!
