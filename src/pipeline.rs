use vstd::prelude::*;
use crate::aggregate::{Aggregator, FinalStats, ScoredCommit, replay, summarize};
use crate::error::AnalyzeError;

verus! {

/// Where a run stands.
pub enum Stage {
    /// Waiting for the next commit of the walk.
    Walking,
    /// Waiting for the scores of the commit by this author.
    Scoring { email: String, name: String },
    /// The walk is exhausted and every commit was scored.
    Done,
    /// A stage failed; nothing more is processed.
    Failed(AnalyzeError),
}

pub ghost enum StageModel {
    Walking,
    Scoring { email: Seq<char>, name: Seq<char> },
    Done,
    Failed(AnalyzeError),
}

impl View for Stage {
    type V = StageModel;

    open spec fn view(&self) -> StageModel {
        match self {
            Stage::Walking => StageModel::Walking,
            Stage::Scoring { email, name } => StageModel::Scoring { email: email@, name: name@ },
            Stage::Done => StageModel::Done,
            Stage::Failed(e) => StageModel::Failed(*e),
        }
    }
}

/// What the runner reports back after doing the awaited work.
pub enum Event {
    /// The walk produced a commit by this author.
    CommitFound { email: String, name: String },
    /// The walk has no more commits.
    HistoryExhausted,
    /// The scoring service scored the current commit (millionths of a point).
    Scored { performance: i64, maintainability: i64 },
    /// Opening, walking, diffing or scoring failed.
    StageFailed(AnalyzeError),
}

/// The work the runner is to do next.
#[derive(Debug, Clone, Copy, PartialEq, Eq, Structural)]
pub enum Action {
    /// Take the next commit from the walk.
    FetchNextCommit,
    /// Summarize the current commit's change and have it scored.
    ScoreCommit,
    /// Finalize and print the summaries.
    Report,
    /// Stop the run with this error, printing nothing.
    Abort(AnalyzeError),
}

/// What the runner is asked to do in each stage.
pub open spec fn awaited(s: StageModel) -> Action {
    match s {
        StageModel::Walking => Action::FetchNextCommit,
        StageModel::Scoring { .. } => Action::ScoreCommit,
        StageModel::Done => Action::Report,
        StageModel::Failed(e) => Action::Abort(e),
    }
}

/// The decisions of a run: commits are scored one at a time, in walk order;
/// the first failure ends the run.
pub struct Pipeline {
    stage: Stage,
    aggregator: Aggregator,
    history: Ghost<Seq<ScoredCommit>>,
}

impl Pipeline {
    pub closed spec fn stage_spec(&self) -> StageModel {
        self.stage@
    }

    /// The commits scored so far, in order.
    pub closed spec fn history(&self) -> Seq<ScoredCommit> {
        self.history@
    }

    /// The aggregator holds exactly the scored commits.
    pub closed spec fn wf(&self) -> bool {
        &&& self.aggregator.wf()
        &&& self.aggregator@ == replay(self.history@)
    }

    /// A run that has not yet seen a commit.
    pub fn new() -> (r: Pipeline)
        ensures
            r.wf(),
            r.stage_spec() == StageModel::Walking,
            r.history() == Seq::<ScoredCommit>::empty(),
    {
        Pipeline { stage: Stage::Walking, aggregator: Aggregator::new(), history: Ghost(Seq::empty()) }
    }

    /// The work awaited in the current stage.
    pub fn next_action(&self) -> (r: Action)
        ensures
            r == awaited(self.stage_spec()),
    {
        match &self.stage {
            Stage::Walking => Action::FetchNextCommit,
            Stage::Scoring { .. } => Action::ScoreCommit,
            Stage::Done => Action::Report,
            Stage::Failed(e) => Action::Abort(*e),
        }
    }

    /// Whether the run is over, done or failed.
    pub fn is_finished(&self) -> (r: bool)
        ensures
            r <==> (self.stage_spec() is Done || self.stage_spec() is Failed),
    {
        match &self.stage {
            Stage::Done => true,
            Stage::Failed(_) => true,
            _ => false,
        }
    }

    /// Takes the outcome of the awaited work and returns the next work.
    /// A failure ends the run in every stage that is not over; an event that
    /// the stage does not await leaves the run as it is.
    pub fn step(&mut self, event: Event) -> (r: Action)
        requires
            old(self).wf(),
        ensures
            final(self).wf(),
            r == awaited(final(self).stage_spec()),
            match (old(self).stage_spec(), event) {
                (StageModel::Walking, Event::CommitFound { email, name }) => {
                    &&& final(self).stage_spec() == (StageModel::Scoring { email: email@, name: name@ })
                    &&& final(self).history() == old(self).history()
                },
                (StageModel::Walking, Event::HistoryExhausted) => {
                    &&& final(self).stage_spec() == StageModel::Done
                    &&& final(self).history() == old(self).history()
                },
                (StageModel::Scoring { email, name }, Event::Scored { performance, maintainability }) => {
                    &&& final(self).stage_spec() == StageModel::Walking
                    &&& final(self).history() == old(self).history().push(
                        (email, name, performance, maintainability),
                    )
                },
                (StageModel::Walking, Event::StageFailed(e)) | (StageModel::Scoring { .. }, Event::StageFailed(e)) => {
                    &&& final(self).stage_spec() == StageModel::Failed(e)
                    &&& final(self).history() == old(self).history()
                },
                _ => {
                    &&& final(self).stage_spec() == old(self).stage_spec()
                    &&& final(self).history() == old(self).history()
                },
            },
    {
        let running = match &self.stage {
            Stage::Walking => true,
            Stage::Scoring { .. } => true,
            _ => false,
        };
        match event {
            Event::StageFailed(e) => {
                if running {
                    self.stage = Stage::Failed(e);
                }
            },
            Event::CommitFound { email, name } => {
                if let Stage::Walking = self.stage {
                    self.stage = Stage::Scoring { email, name };
                }
            },
            Event::HistoryExhausted => {
                if let Stage::Walking = self.stage {
                    self.stage = Stage::Done;
                }
            },
            Event::Scored { performance, maintainability } => {
                let mut current = Stage::Walking;
                std::mem::swap(&mut current, &mut self.stage);
                match current {
                    Stage::Scoring { email, name } => {
                        let ghost entry: ScoredCommit = (email@, name@, performance, maintainability);
                        let ghost before = self.history@;
                        self.aggregator.record(email, name, performance, maintainability);
                        self.history = Ghost(before.push(entry));
                        proof {
                            assert(self.history@.drop_last() =~= before);
                        }
                    },
                    other => {
                        self.stage = other;
                    },
                }
            },
        }
        self.next_action()
    }

    /// The summaries of a run whose walk is over and whose every commit was
    /// scored. A failed run never gets here.
    pub fn finish(self) -> (r: Result<FinalStats, AnalyzeError>)
        requires
            self.wf(),
            self.stage_spec() == StageModel::Done,
        ensures
            r matches Ok(f) && f@ == summarize(replay(self.history())) && f.wf(),
    {
        proof {
            crate::aggregate::lemma_replay_totals(self.history@);
        }
        let r = self.aggregator.finalize();
        r
    }
}

} // verus!
