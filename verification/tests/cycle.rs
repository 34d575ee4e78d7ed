use m3c4::cycle::{Cycle, Outcome, Phase, Step, LEARN_ATTEMPTS};

#[test]
fn run_without_an_episode_is_finished_at_once() {
    let (_, step) = Cycle::begin(3, 3);
    assert_eq!(step, Step::Finished);
    let (_, step) = Cycle::begin(5, 3);
    assert_eq!(step, Step::Finished);
}

#[test]
fn phases_follow_each_other() {
    let (mut cycle, step) = Cycle::begin(0, 2);
    assert_eq!(step, Step::Run(Phase::BuildModel, 0));
    assert_eq!(cycle.advance(Outcome::Done), Step::Run(Phase::SelfPlay, 0));
    assert_eq!(cycle.advance(Outcome::Done), Step::Run(Phase::Aggregate, 0));
    assert_eq!(cycle.advance(Outcome::Done), Step::Run(Phase::Persist, 0));
    assert_eq!(cycle.advance(Outcome::Done), Step::Run(Phase::Train, 0));
    assert_eq!(cycle.advance(Outcome::Done), Step::Run(Phase::BuildModel, 1));
    assert_eq!(cycle.episode, 1);
    assert_eq!(cycle.advance(Outcome::Done), Step::Run(Phase::SelfPlay, 1));
    assert_eq!(cycle.advance(Outcome::Done), Step::Run(Phase::Aggregate, 1));
    assert_eq!(cycle.advance(Outcome::Done), Step::Run(Phase::Persist, 1));
    assert_eq!(cycle.advance(Outcome::Done), Step::Run(Phase::Train, 1));
    assert_eq!(cycle.advance(Outcome::Done), Step::Finished);
}

#[test]
fn run_begins_at_the_given_episode() {
    let (cycle, step) = Cycle::begin(7, 80);
    assert_eq!(step, Step::Run(Phase::BuildModel, 7));
    assert_eq!(cycle.episode, 7);
    assert_eq!(cycle.episodes, 80);
    assert_eq!(cycle.failed, 0);
}

#[test]
fn failed_writing_does_not_end_the_episode() {
    let mut cycle = Cycle { episode: 0, episodes: 1, phase: Phase::Persist, failed: 0 };
    assert_eq!(cycle.advance(Outcome::Failed), Step::Run(Phase::Train, 0));
    assert_eq!(cycle.phase, Phase::Train);
}

#[test]
fn failed_play_ends_the_run() {
    for phase in [Phase::BuildModel, Phase::SelfPlay, Phase::Aggregate] {
        let mut cycle = Cycle { episode: 0, episodes: 1, phase, failed: 0 };
        assert_eq!(cycle.advance(Outcome::Failed), Step::Abort);
    }
}

#[test]
fn learning_is_tried_ten_times() {
    assert_eq!(LEARN_ATTEMPTS, 10);
    let mut cycle = Cycle { episode: 4, episodes: 9, phase: Phase::Train, failed: 0 };
    for tried in 1..10 {
        assert_eq!(cycle.advance(Outcome::Failed), Step::Run(Phase::Train, 4));
        assert_eq!(cycle.failed, tried);
    }
    assert_eq!(cycle.advance(Outcome::Failed), Step::Abort);
}

#[test]
fn learning_that_works_after_failures_leads_on() {
    let mut cycle = Cycle { episode: 4, episodes: 9, phase: Phase::Train, failed: 0 };
    for _ in 0..9 {
        assert_eq!(cycle.advance(Outcome::Failed), Step::Run(Phase::Train, 4));
    }
    assert_eq!(cycle.advance(Outcome::Done), Step::Run(Phase::BuildModel, 5));
    assert_eq!(cycle.failed, 0);
    assert_eq!(cycle.phase, Phase::BuildModel);
}
