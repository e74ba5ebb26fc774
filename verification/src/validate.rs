//! The validate stage: where the messages of a validator go, and what its
//! runs over the inputs report.

use crate::error::HarnessError;
use crate::language::ExecuteStatus;
use crate::path::{rename_in, renamed_in, subdirectory, subdirectory_of};
use vstd::prelude::*;

verus! {

/// Whether the validate stage looks for testcases below the directories it
/// is given, too: it does not.
pub const SEARCH_RECURSIVELY: bool = false;

/// The seconds that one run of a validator may take.
pub const VALIDATE_TIME_LIMIT_SECS: u64 = 10;

/// What one run of a validator gave: how it ended and where its messages
/// are, if they were kept.
pub type Validation = Result<(ExecuteStatus, Option<String>), HarnessError>;

/// The directory that takes the messages of the validator `validator`: in
/// `outdir`, named by the stem of the validator.
pub fn validator_directory(outdir: &str, validator: &str) -> (r: Result<String, HarnessError>)
    ensures
        match r {
            Ok(path) => subdirectory_of(outdir@, validator@) == Some(path@),
            Err(e) => subdirectory_of(outdir@, validator@) is None && e
                == HarnessError::MissingFileName,
        },
{
    match subdirectory(outdir, validator) {
        Some(path) => Ok(path),
        None => Err(HarnessError::MissingFileName),
    }
}

/// Where the messages of the validator on the input `target` go: nowhere in
/// quiet mode, else to the file in `outdir` with the stem of the input and the
/// extension `val`.
pub fn capture_path(outdir: &str, target: &str, quiet: bool) -> (r: Result<
    Option<String>,
    HarnessError,
>)
    ensures
        match r {
            Ok(Some(path)) => !quiet && renamed_in(outdir@, target@, "val"@) == Some(path@),
            Ok(None) => quiet && renamed_in(outdir@, target@, "val"@) is Some,
            Err(e) => renamed_in(outdir@, target@, "val"@) is None && e
                == HarnessError::MissingFileName,
        },
{
    match rename_in(outdir, target, "val") {
        Some(path) => if quiet {
            Ok(None)
        } else {
            Ok(Some(path))
        },
        None => Err(HarnessError::MissingFileName),
    }
}

/// What one run of the validator gives: how it ended, with the place of its
/// messages; a validator that could not be run is a `RunFailure`. A status
/// other than `Success` says that the input is invalid, and is no error.
pub fn validate_result(outcome: Result<ExecuteStatus, HarnessError>, capture: Option<String>) -> (r:
    Validation)
    ensures
        r == match outcome {
            Ok(status) => Ok::<(ExecuteStatus, Option<String>), HarnessError>((status, capture)),
            Err(_) => Err(HarnessError::RunFailure),
        },
{
    match outcome {
        Ok(status) => Ok((status, capture)),
        Err(_) => Err(HarnessError::RunFailure),
    }
}

/// One line of the report of a validator, as a mathematical value.
pub struct ValidationRowView {
    pub status: ExecuteStatus,
    pub target: Seq<char>,
    pub stderr: Option<Seq<char>>,
}

/// One line of the report of a validator: how it ended on an input, and where
/// its messages are.
#[derive(Debug)]
pub struct ValidationRow {
    pub status: ExecuteStatus,
    pub target: String,
    pub stderr: Option<String>,
}

impl View for ValidationRow {
    type V = ValidationRowView;

    open spec fn view(&self) -> ValidationRowView {
        ValidationRowView {
            status: self.status,
            target: self.target@,
            stderr: match self.stderr {
                Some(path) => Some(path@),
                None => None,
            },
        }
    }
}

impl DeepView for ValidationRow {
    type V = ValidationRowView;

    open spec fn deep_view(&self) -> ValidationRowView {
        self@
    }
}

/// The line that the run of a validator on `target` adds to the report, if
/// any: a run that ended is reported with its status, a run that failed to
/// start is left out.
pub open spec fn row_of(target: Seq<char>, result: Validation) -> Option<ValidationRowView> {
    match result {
        Ok((status, capture)) => Some(
            ValidationRowView {
                status,
                target,
                stderr: match capture {
                    Some(path) => Some(path@),
                    None => None,
                },
            },
        ),
        Err(_) => None,
    }
}

/// The report over the first `n` inputs.
pub open spec fn rows_of(targets: Seq<Seq<char>>, results: Seq<Validation>, n: int) -> Seq<
    ValidationRowView,
>
    decreases n,
{
    if n <= 0 {
        Seq::empty()
    } else {
        match row_of(targets[n - 1], results[n - 1]) {
            Some(row) => rows_of(targets, results, n - 1).push(row),
            None => rows_of(targets, results, n - 1),
        }
    }
}

/// The report of one validator: a line for each input on which it ran, in the
/// order of the inputs. `results[k]` is what its run on `targets[k]` gave; an
/// input without a result has no line.
pub fn report(targets: &Vec<String>, results: &Vec<Validation>) -> (rows: Vec<ValidationRow>)
    ensures
        rows.deep_view() == rows_of(
            targets.deep_view(),
            results@,
            if targets.len() <= results.len() {
                targets.len() as int
            } else {
                results.len() as int
            },
        ),
{
    let mut rows: Vec<ValidationRow> = Vec::new();
    let mut i: usize = 0;
    assert(rows.deep_view() =~= rows_of(targets.deep_view(), results@, 0));
    while i < targets.len() && i < results.len()
        invariant
            i <= targets.len(),
            i <= results.len(),
            rows.deep_view() == rows_of(targets.deep_view(), results@, i as int),
        decreases targets.len() - i,
    {
        let ghost before = rows.deep_view();
        match &results[i] {
            Ok((status, capture)) => {
                let stderr = match capture {
                    Some(path) => Some(path.clone()),
                    None => None,
                };
                let row = ValidationRow { status: *status, target: targets[i].clone(), stderr };
                assert(Some(row@) == row_of(targets.deep_view()[i as int], results@[i as int]));
                rows.push(row);
                assert(rows.deep_view() =~= before.push(row@));
            },
            Err(_) => {},
        }
        i += 1;
    }
    rows
}

/// Validating again gives the same report: the same results on the same
/// inputs are reported in the same lines.
pub proof fn lemma_rerun_gives_same_report(
    targets: Seq<Seq<char>>,
    results: Seq<Validation>,
    targets_again: Seq<Seq<char>>,
    results_again: Seq<Validation>,
)
    requires
        targets_again == targets,
        results_again == results,
    ensures
        rows_of(targets_again, results_again, targets_again.len() as int) == rows_of(
            targets,
            results,
            targets.len() as int,
        ),
{
}

} // verus!
