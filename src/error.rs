use vstd::prelude::*;

verus! {

/// Every way a run can fail. Each one is fatal to the run.
#[derive(Debug, Clone, Copy, PartialEq, Eq, Structural)]
pub enum AnalyzeError {
    /// The credential is missing or empty, or the repository path is invalid.
    Configuration,
    /// The repository could not be opened or walked.
    RepositoryAccess,
    /// A tree could not be resolved or a diff could not be built.
    DiffComputation,
    /// The scoring service rejected the credential.
    Authentication,
    /// The scoring service answered with a failure or with a malformed body.
    RemoteService,
    /// The scoring service could not be reached.
    Transport,
    /// A committer has no recorded score to average.
    EmptySeries,
}

impl AnalyzeError {
    /// The name of the stage that failed, for the message shown to the user.
    pub fn stage(&self) -> (r: &'static str)
        ensures
            r@ == self.stage_spec(),
    {
        match self {
            AnalyzeError::Configuration => "configuration error",
            AnalyzeError::RepositoryAccess => "repository access error",
            AnalyzeError::DiffComputation => "diff computation error",
            AnalyzeError::Authentication => "authentication error",
            AnalyzeError::RemoteService => "remote service error",
            AnalyzeError::Transport => "transport error",
            AnalyzeError::EmptySeries => "empty score series",
        }
    }

    pub open spec fn stage_spec(&self) -> Seq<char> {
        match self {
            AnalyzeError::Configuration => "configuration error"@,
            AnalyzeError::RepositoryAccess => "repository access error"@,
            AnalyzeError::DiffComputation => "diff computation error"@,
            AnalyzeError::Authentication => "authentication error"@,
            AnalyzeError::RemoteService => "remote service error"@,
            AnalyzeError::Transport => "transport error"@,
            AnalyzeError::EmptySeries => "empty score series"@,
        }
    }
}

} // verus!
