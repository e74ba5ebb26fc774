//! The solve stage: which files are inputs, where the answer of each goes,
//! and what a run of the solver is worth.

use crate::error::HarnessError;
use crate::judge::is_input;
use crate::language::ExecuteStatus;
use crate::path::{has_extension, rename_in, renamed_in};
use vstd::prelude::*;

verus! {

/// The test for an input, as a function.
pub open spec fn input_test() -> spec_fn(Seq<char>) -> bool {
    |path: Seq<char>| is_input(path)
}

/// The inputs among `files`: the files with the extension `in`, in the order
/// in which they were given.
pub fn select_inputs(files: &Vec<String>) -> (inputs: Vec<String>)
    ensures
        inputs.deep_view() == files.deep_view().filter(input_test()),
{
    let ghost all = files.deep_view();
    let mut inputs: Vec<String> = Vec::new();
    let mut i: usize = 0;
    proof {
        reveal(Seq::filter);
        assert(inputs.deep_view() =~= all.subrange(0, 0).filter(input_test()));
    }
    while i < files.len()
        invariant
            i <= files.len(),
            all == files.deep_view(),
            inputs.deep_view() == all.subrange(0, i as int).filter(input_test()),
        decreases files.len() - i,
    {
        let ghost before = inputs.deep_view();
        proof {
            reveal(Seq::filter);
            assert(all.subrange(0, i + 1).drop_last() =~= all.subrange(0, i as int));
            assert(all.subrange(0, i + 1).last() == all[i as int]);
        }
        if has_extension(files[i].as_str(), "in") {
            inputs.push(files[i].clone());
            assert(inputs.deep_view() =~= before.push(all[i as int]));
        }
        i += 1;
    }
    assert(all.subrange(0, files.len() as int) =~= all);
    inputs
}

/// The path of the file that takes the answer to the input `input`: in
/// `outdir`, with the stem of the input and the extension `ans`.
pub fn answer_path(outdir: &str, input: &str) -> (r: Result<String, HarnessError>)
    ensures
        match r {
            Ok(path) => renamed_in(outdir@, input@, "ans"@) == Some(path@),
            Err(e) => renamed_in(outdir@, input@, "ans"@) is None && e
                == HarnessError::MissingFileName,
        },
{
    match rename_in(outdir, input, "ans") {
        Some(path) => Ok(path),
        None => Err(HarnessError::MissingFileName),
    }
}

/// What one run of the solver gives: how it ended, with the place of the
/// answer it wrote. A status other than `Success` is noted like any other and
/// is no error; the file stays where it is, whatever it holds. Only a solver
/// that could not be run is a `RunFailure` for this input.
pub fn solve_result(outcome: Result<ExecuteStatus, HarnessError>, answer_path: String) -> (r: Result<
    (ExecuteStatus, String),
    HarnessError,
>)
    ensures
        r == match outcome {
            Ok(status) => Ok::<(ExecuteStatus, String), HarnessError>((status, answer_path)),
            Err(_) => Err(HarnessError::RunFailure),
        },
{
    match outcome {
        Ok(status) => Ok((status, answer_path)),
        Err(_) => Err(HarnessError::RunFailure),
    }
}

} // verus!
