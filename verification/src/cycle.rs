//! The cycle of a run: the phases of an episode, the episodes one after the
//! other, and how often learning may fail.

use vstd::prelude::*;

verus! {

/// How often learning is tried in one episode before the run gives up.
pub const LEARN_ATTEMPTS: u32 = 10;

/// What an episode does, step by step.
#[derive(Debug, Clone, Copy, PartialEq, Eq, Structural)]
pub enum Phase {
    /// The evaluator is made ready for the episode.
    BuildModel,
    /// The games of the episode are played.
    SelfPlay,
    /// The positions of the games are gathered.
    Aggregate,
    /// The positions are written out.
    Persist,
    /// The evaluator learns from the positions.
    Train,
}

/// How the work of a phase ended.
#[derive(Debug, Clone, Copy, PartialEq, Eq, Structural)]
pub enum Outcome {
    Done,
    Failed,
}

/// What is to be done next.
#[derive(Debug, Clone, Copy, PartialEq, Eq, Structural)]
pub enum Step {
    /// The work of the phase, in the episode with the number.
    Run(Phase, usize),
    /// All episodes are through.
    Finished,
    /// The run cannot go on.
    Abort,
}

/// Where a run of episodes stands.
#[derive(Debug, Clone, Copy, PartialEq, Eq, Structural)]
pub struct Cycle {
    /// The episode that is being worked on.
    pub episode: usize,
    /// The number at which the run ends.
    pub episodes: usize,
    /// The phase whose work is under way.
    pub phase: Phase,
    /// How often learning has failed in this episode.
    pub failed: u32,
}

impl Cycle {
    /// Whether the run is under way: an episode is left to work on, and
    /// learning has not yet failed as often as it may be tried.
    pub open spec fn well_formed(self) -> bool {
        self.episode < self.episodes && self.failed < LEARN_ATTEMPTS
    }

    /// The run as it goes on after `outcome`, and what is to be done next.
    ///
    /// The phases of an episode follow each other: the evaluator is made
    /// ready, the games are played, their positions are gathered and
    /// written out, and the evaluator learns. Writing out is done as well
    /// as it can be: the episode goes on whether it worked or not. Learning
    /// that fails is tried again, up to `LEARN_ATTEMPTS` times in all;
    /// after that, and after any other failure, the run is over. Learning
    /// that worked leads to the next episode, or to the end of the run.
    pub open spec fn next(self, outcome: Outcome) -> (Cycle, Step) {
        match (self.phase, outcome) {
            (Phase::BuildModel, Outcome::Done) => self.enter(Phase::SelfPlay),
            (Phase::SelfPlay, Outcome::Done) => self.enter(Phase::Aggregate),
            (Phase::Aggregate, Outcome::Done) => self.enter(Phase::Persist),
            (Phase::Persist, _) => self.enter(Phase::Train),
            (Phase::Train, Outcome::Done) => if self.episode + 1 < self.episodes {
                (
                    Cycle {
                        episode: (self.episode + 1) as usize,
                        phase: Phase::BuildModel,
                        failed: 0,
                        ..self
                    },
                    Step::Run(Phase::BuildModel, (self.episode + 1) as usize),
                )
            } else {
                (self, Step::Finished)
            },
            (Phase::Train, Outcome::Failed) => if self.failed + 1 < LEARN_ATTEMPTS {
                (
                    Cycle { failed: (self.failed + 1) as u32, ..self },
                    Step::Run(Phase::Train, self.episode),
                )
            } else {
                (self, Step::Abort)
            },
            (_, Outcome::Failed) => (self, Step::Abort),
        }
    }

    /// The run as it enters `phase` of the episode at hand.
    pub open spec fn enter(self, phase: Phase) -> (Cycle, Step) {
        (Cycle { phase, ..self }, Step::Run(phase, self.episode))
    }

    /// A run of the episodes from `start` up to, but without, `episodes`,
    /// and its first step. A run without an episode is finished at once.
    pub fn begin(start: usize, episodes: usize) -> (run: (Cycle, Step))
        ensures
            run.0 == (Cycle { episode: start, episodes, phase: Phase::BuildModel, failed: 0 }),
            run.1 == if start < episodes {
                Step::Run(Phase::BuildModel, start)
            } else {
                Step::Finished
            },
            start < episodes ==> run.0.well_formed(),
    {
        let cycle = Cycle { episode: start, episodes, phase: Phase::BuildModel, failed: 0 };
        if start < episodes {
            (cycle, Step::Run(Phase::BuildModel, start))
        } else {
            (cycle, Step::Finished)
        }
    }

    /// Takes note of how the work of the phase ended, and says what is to
    /// be done next: see [`Cycle::next`].
    pub fn advance(&mut self, outcome: Outcome) -> (step: Step)
        requires
            old(self).well_formed(),
        ensures
            (*final(self), step) == old(self).next(outcome),
            step is Run ==> final(self).well_formed(),
    {
        match (self.phase, outcome) {
            (Phase::BuildModel, Outcome::Done) => self.start(Phase::SelfPlay),
            (Phase::SelfPlay, Outcome::Done) => self.start(Phase::Aggregate),
            (Phase::Aggregate, Outcome::Done) => self.start(Phase::Persist),
            (Phase::Persist, _) => self.start(Phase::Train),
            (Phase::Train, Outcome::Done) => {
                if self.episode + 1 < self.episodes {
                    self.episode += 1;
                    self.phase = Phase::BuildModel;
                    self.failed = 0;
                    Step::Run(Phase::BuildModel, self.episode)
                } else {
                    Step::Finished
                }
            },
            (Phase::Train, Outcome::Failed) => {
                if self.failed + 1 < LEARN_ATTEMPTS {
                    self.failed += 1;
                    Step::Run(Phase::Train, self.episode)
                } else {
                    Step::Abort
                }
            },
            (_, Outcome::Failed) => Step::Abort,
        }
    }

    fn start(&mut self, phase: Phase) -> (step: Step)
        ensures
            (*final(self), step) == old(self).enter(phase),
    {
        self.phase = phase;
        Step::Run(phase, self.episode)
    }
}

/// The run after learning has failed `n` times in a row, and the step that
/// follows.
pub open spec fn after_failures(cycle: Cycle, n: nat) -> (Cycle, Step)
    decreases n,
{
    if n == 0 {
        (cycle, Step::Run(Phase::Train, cycle.episode))
    } else {
        after_failures(cycle, (n - 1) as nat).0.next(Outcome::Failed)
    }
}

/// Learning is tried ten times at most: after each of the first nine
/// failures of an episode it is tried again, and the tenth ends the run.
pub proof fn lemma_learning_bounded(cycle: Cycle, n: nat)
    requires
        cycle.well_formed(),
        cycle.phase == Phase::Train,
        cycle.failed == 0,
        n <= LEARN_ATTEMPTS,
    ensures
        n < LEARN_ATTEMPTS ==> after_failures(cycle, n) == (
            Cycle { failed: n as u32, ..cycle },
            Step::Run(Phase::Train, cycle.episode),
        ),
        n == LEARN_ATTEMPTS ==> after_failures(cycle, n).1 == Step::Abort,
    decreases n,
{
    if n > 0 {
        lemma_learning_bounded(cycle, (n - 1) as nat);
    }
}

/// Learning that works ends the episode, however often it had failed
/// before: the next episode begins, or the run is finished.
pub proof fn lemma_learning_done(cycle: Cycle)
    requires
        cycle.well_formed(),
        cycle.phase == Phase::Train,
    ensures
        cycle.next(Outcome::Done).1 == if cycle.episode + 1 < cycle.episodes {
            Step::Run(Phase::BuildModel, (cycle.episode + 1) as usize)
        } else {
            Step::Finished
        },
        cycle.next(Outcome::Done).0.failed == if cycle.episode + 1 < cycle.episodes {
            0
        } else {
            cycle.failed
        },
{
}

/// Writing the positions out is done as well as it can be: whether it
/// worked or not, learning follows.
pub proof fn lemma_persist_best_effort(cycle: Cycle, outcome: Outcome)
    requires
        cycle.phase == Phase::Persist,
    ensures
        cycle.next(outcome) == (
            Cycle { phase: Phase::Train, ..cycle },
            Step::Run(Phase::Train, cycle.episode),
        ),
{
}

} // verus!
