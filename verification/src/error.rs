//! The failures that abort a target, a file or the configuration.

use vstd::prelude::*;

verus! {

/// A hard error of the harness. The three values of
/// [`crate::language::ExecuteStatus`] are classified outcomes, not errors.
#[derive(Debug, Clone, Copy, PartialEq, Eq, Structural)]
pub enum HarnessError {
    /// The program could not be started at all.
    SpawnFailure,
    /// A compile step ended with a status other than success.
    CompileFailure,
    /// No toolchain accepts the extension of the target.
    NoLanguageDetected,
    /// A custom toolchain was given without a run command.
    InvalidCustomToolchain,
    /// The extension pattern of a custom toolchain is not a regular expression.
    InvalidExtensionPattern,
    /// A file name carries a count but no base name before it.
    InvalidFilenameForm,
    /// The path does not end in a file name.
    MissingFileName,
    /// The target has no extension to choose a toolchain by.
    MissingExtension,
    /// A solver, validator or checker could not be run to a usable result.
    RunFailure,
}

impl HarnessError {
    /// A short description of the error for logs and reports.
    pub fn message(&self) -> (s: String)
        ensures
            s@ == self.spec_message(),
    {
        match self {
            HarnessError::SpawnFailure => "failed to execute".to_string(),
            HarnessError::CompileFailure => "failed to compile".to_string(),
            HarnessError::NoLanguageDetected => "no language detected".to_string(),
            HarnessError::InvalidCustomToolchain => "invalid custom language".to_string(),
            HarnessError::InvalidExtensionPattern => "invalid extension pattern".to_string(),
            HarnessError::InvalidFilenameForm => "invalid form".to_string(),
            HarnessError::MissingFileName => "file name is not found".to_string(),
            HarnessError::MissingExtension => "extension is not found".to_string(),
            HarnessError::RunFailure => "failed to run".to_string(),
        }
    }

    /// The characters that `message` returns.
    pub open spec fn spec_message(&self) -> Seq<char> {
        match self {
            HarnessError::SpawnFailure => "failed to execute"@,
            HarnessError::CompileFailure => "failed to compile"@,
            HarnessError::NoLanguageDetected => "no language detected"@,
            HarnessError::InvalidCustomToolchain => "invalid custom language"@,
            HarnessError::InvalidExtensionPattern => "invalid extension pattern"@,
            HarnessError::InvalidFilenameForm => "invalid form"@,
            HarnessError::MissingFileName => "file name is not found"@,
            HarnessError::MissingExtension => "extension is not found"@,
            HarnessError::RunFailure => "failed to run"@,
        }
    }
}

} // verus!
