//! The stage dispatcher: which steps an action takes, in which order, and
//! what follows when a step fails.

use vstd::prelude::*;
use crate::artifact::{ArtifactKey, StageKind};
use crate::failure::Failure;
use crate::region::Region;

verus! {

/// What one invocation is asked to do.
#[derive(Clone, Copy, Debug, PartialEq, Eq, Structural)]
pub enum Action {
    /// Resolve the input of a region, synthesize its population and store it.
    Init { region: Region },
    /// Turn the stored population into the cache files of the Python model.
    PythonCache { region: Region },
    /// Turn the stored population into a snapshot.
    Snapshot { region: Region },
    /// Run the model on the stored population.
    RunModel { region: Region },
}

/// The stage that consumes a stored population.
#[derive(Clone, Copy, Debug, PartialEq, Eq, Structural)]
pub enum Consumer {
    PythonCache,
    Snapshot,
    RunModel,
}

/// One step of an invocation: what is to be done next.
#[derive(Clone, Copy, Debug, PartialEq, Eq, Structural)]
pub enum Step {
    /// Read the source of the region and resolve the initial conditions.
    ResolveInput { region: Region },
    /// Have the synthesizer make the population from the initial conditions.
    Synthesize { region: Region },
    /// Store the population under the key of the region.
    StorePopulation { region: Region },
    /// Load the population of the region for the stage that consumes it.
    LoadPopulation { region: Region, consumer: Consumer },
    /// Have the consuming stage do its work on the loaded population.
    Consume { region: Region, consumer: Consumer },
    /// Nothing is left to do: the invocation succeeded.
    Finish,
    /// Nothing more is done: the invocation failed.
    Abort { failure: Failure },
}

/// How a step ended.
#[derive(Clone, Copy, Debug, PartialEq, Eq, Structural)]
pub enum Outcome {
    Done,
    Failed(Failure),
}

impl Action {
    /// The region that the action is for.
    pub open spec fn spec_region(self) -> Region {
        match self {
            Action::Init { region } => region,
            Action::PythonCache { region } => region,
            Action::Snapshot { region } => region,
            Action::RunModel { region } => region,
        }
    }

    /// The step that the action starts with: resolving the input for the
    /// initial stage, loading the population for every other.
    pub open spec fn spec_first_step(self) -> Step {
        match self {
            Action::Init { region } => Step::ResolveInput { region },
            Action::PythonCache { region } => Step::LoadPopulation {
                region,
                consumer: Consumer::PythonCache,
            },
            Action::Snapshot { region } => Step::LoadPopulation {
                region,
                consumer: Consumer::Snapshot,
            },
            Action::RunModel { region } => Step::LoadPopulation {
                region,
                consumer: Consumer::RunModel,
            },
        }
    }

    /// The region that the action is for.
    pub fn region(self) -> (region: Region)
        ensures
            region == self.spec_region(),
    {
        match self {
            Action::Init { region } => region,
            Action::PythonCache { region } => region,
            Action::Snapshot { region } => region,
            Action::RunModel { region } => region,
        }
    }

    /// The step that the action starts with.
    pub fn first_step(self) -> (step: Step)
        ensures
            step == self.spec_first_step(),
    {
        match self {
            Action::Init { region } => Step::ResolveInput { region },
            Action::PythonCache { region } => Step::LoadPopulation {
                region,
                consumer: Consumer::PythonCache,
            },
            Action::Snapshot { region } => Step::LoadPopulation {
                region,
                consumer: Consumer::Snapshot,
            },
            Action::RunModel { region } => Step::LoadPopulation {
                region,
                consumer: Consumer::RunModel,
            },
        }
    }
}

impl Step {
    /// True for the two steps after which nothing is done.
    pub open spec fn is_final(self) -> bool {
        self is Finish || self is Abort
    }

    /// The artifact that the step reads, if it reads one.
    pub open spec fn spec_reads(self) -> Option<ArtifactKey> {
        match self {
            Step::LoadPopulation { region, .. } => Some(
                ArtifactKey { region, kind: StageKind::Population },
            ),
            _ => None,
        }
    }

    /// The artifact that the step writes, if it writes one. Running the model
    /// writes none through this layer.
    pub open spec fn spec_writes(self) -> Option<ArtifactKey> {
        match self {
            Step::StorePopulation { region } => Some(
                ArtifactKey { region, kind: StageKind::Population },
            ),
            Step::Consume { region, consumer: Consumer::PythonCache } => Some(
                ArtifactKey { region, kind: StageKind::PythonCache },
            ),
            Step::Consume { region, consumer: Consumer::Snapshot } => Some(
                ArtifactKey { region, kind: StageKind::Snapshot },
            ),
            _ => None,
        }
    }

    /// True for the steps that are given the random generator: the work of
    /// a collaborator on a population.
    pub open spec fn spec_takes_generator(self) -> bool {
        self is Synthesize || self is Consume
    }

    /// The step that follows this one after the given outcome. After a
    /// failure nothing more is done, and the failure is the invocation's;
    /// nothing follows the two final steps but themselves.
    pub open spec fn spec_next(self, outcome: Outcome) -> Step {
        match self {
            Step::Finish => Step::Finish,
            Step::Abort { failure } => Step::Abort { failure },
            _ => match outcome {
                Outcome::Failed(failure) => Step::Abort { failure },
                Outcome::Done => match self {
                    Step::ResolveInput { region } => Step::Synthesize { region },
                    Step::Synthesize { region } => Step::StorePopulation { region },
                    Step::LoadPopulation { region, consumer } => Step::Consume { region, consumer },
                    _ => Step::Finish,
                },
            },
        }
    }

    /// The artifact that the step reads, if it reads one.
    pub fn reads(self) -> (key: Option<ArtifactKey>)
        ensures
            key == self.spec_reads(),
    {
        match self {
            Step::LoadPopulation { region, .. } => Some(
                ArtifactKey { region, kind: StageKind::Population },
            ),
            _ => None,
        }
    }

    /// The artifact that the step writes, if it writes one.
    pub fn writes(self) -> (key: Option<ArtifactKey>)
        ensures
            key == self.spec_writes(),
    {
        match self {
            Step::StorePopulation { region } => Some(
                ArtifactKey { region, kind: StageKind::Population },
            ),
            Step::Consume { region, consumer } => match consumer {
                Consumer::PythonCache => Some(ArtifactKey { region, kind: StageKind::PythonCache }),
                Consumer::Snapshot => Some(ArtifactKey { region, kind: StageKind::Snapshot }),
                Consumer::RunModel => None,
            },
            _ => None,
        }
    }

    /// True for the steps that are given the random generator.
    pub fn takes_generator(self) -> (taken: bool)
        ensures
            taken == self.spec_takes_generator(),
    {
        match self {
            Step::Synthesize { .. } => true,
            Step::Consume { .. } => true,
            _ => false,
        }
    }

    /// The step that follows this one after the given outcome.
    pub fn next(self, outcome: Outcome) -> (step: Step)
        ensures
            step == self.spec_next(outcome),
    {
        match self {
            Step::Finish => Step::Finish,
            Step::Abort { failure } => Step::Abort { failure },
            _ => match outcome {
                Outcome::Failed(failure) => Step::Abort { failure },
                Outcome::Done => match self {
                    Step::ResolveInput { region } => Step::Synthesize { region },
                    Step::Synthesize { region } => Step::StorePopulation { region },
                    Step::LoadPopulation { region, consumer } => Step::Consume { region, consumer },
                    _ => Step::Finish,
                },
            },
        }
    }
}

/// The step that an invocation is at after the given outcomes of its earlier
/// steps, the first outcome first.
pub open spec fn step_after(action: Action, outcomes: Seq<Outcome>) -> Step
    decreases outcomes.len(),
{
    if outcomes.len() == 0 {
        action.spec_first_step()
    } else {
        step_after(action, outcomes.drop_last()).spec_next(outcomes.last())
    }
}

/// The steps of an invocation in which no step fails, the final step last.
pub open spec fn spec_plan(action: Action) -> Seq<Step> {
    let first = action.spec_first_step();
    let second = first.spec_next(Outcome::Done);
    let third = second.spec_next(Outcome::Done);
    match action {
        Action::Init { .. } => seq![first, second, third, Step::Finish],
        _ => seq![first, second, Step::Finish],
    }
}

/// The steps of an invocation in which no step fails, the final step last.
pub fn plan(action: Action) -> (steps: Vec<Step>)
    ensures
        steps@ == spec_plan(action),
{
    let mut steps: Vec<Step> = Vec::new();
    let mut step = action.first_step();
    steps.push(step);
    step = step.next(Outcome::Done);
    steps.push(step);
    step = step.next(Outcome::Done);
    steps.push(step);
    match action {
        Action::Init { .. } => {
            steps.push(Step::Finish);
        },
        _ => {},
    }
    assert(steps@ =~= spec_plan(action));
    steps
}

/// True when every outcome of a list is a success.
pub open spec fn all_done(outcomes: Seq<Outcome>) -> bool {
    forall|i: int| 0 <= i < outcomes.len() ==> #[trigger] outcomes[i] == Outcome::Done
}

/// Each step that is not final tells how far the invocation has come: which
/// action it belongs to, for which region, how many steps went before it, and
/// that none of them failed.
pub proof fn lemma_step_tells_progress(action: Action, outcomes: Seq<Outcome>)
    ensures
        match step_after(action, outcomes) {
            Step::ResolveInput { region } => action == (Action::Init { region }) && outcomes.len()
                == 0,
            Step::Synthesize { region } => action == (Action::Init { region }) && outcomes.len()
                == 1 && all_done(outcomes),
            Step::StorePopulation { region } => action == (Action::Init { region })
                && outcomes.len() == 2 && all_done(outcomes),
            Step::LoadPopulation { region, consumer } => action.spec_first_step() == (
            Step::LoadPopulation { region, consumer }) && outcomes.len() == 0,
            Step::Consume { region, consumer } => action.spec_first_step() == (
            Step::LoadPopulation { region, consumer }) && outcomes.len() == 1 && all_done(outcomes),
            Step::Finish => outcomes.len() >= 1,
            Step::Abort { failure } => outcomes.len() >= 1,
        },
    decreases outcomes.len(),
{
    if outcomes.len() > 0 {
        let earlier = outcomes.drop_last();
        lemma_step_tells_progress(action, earlier);
        if !step_after(action, outcomes).is_final() {
            assert forall|i: int| 0 <= i < outcomes.len() implies #[trigger] outcomes[i]
                == Outcome::Done by {
                if i < earlier.len() {
                    assert(earlier[i] == Outcome::Done);
                }
            }
        }
    }
}

/// A step writes only where every step before it succeeded, and only the
/// artifact of the action's own region: the population as the third step of
/// the initial stage, the product of a consuming stage as its second step,
/// after the population was loaded.
pub proof fn lemma_writes_follow_success(action: Action, outcomes: Seq<Outcome>)
    requires
        step_after(action, outcomes).spec_writes() is Some,
    ensures
        all_done(outcomes),
        step_after(action, outcomes).spec_writes().unwrap().region == action.spec_region(),
        action is Init ==> outcomes.len() == 2,
        !(action is Init) ==> outcomes.len() == 1 && step_after(
            action,
            outcomes.drop_last(),
        ).spec_reads() == Some(
            ArtifactKey { region: action.spec_region(), kind: StageKind::Population },
        ),
{
    lemma_step_tells_progress(action, outcomes);
    if !(action is Init) {
        assert(outcomes.drop_last() =~= Seq::<Outcome>::empty());
    }
}

/// After the first failure nothing is written and nothing more is done: the
/// invocation is at its end with that failure, however many outcomes are
/// reported after it.
pub proof fn lemma_failure_ends_invocation(
    action: Action,
    outcomes: Seq<Outcome>,
    at: int,
    failure: Failure,
)
    requires
        0 <= at < outcomes.len(),
        outcomes[at] == Outcome::Failed(failure),
        !step_after(action, outcomes.take(at)).is_final(),
    ensures
        step_after(action, outcomes) == (Step::Abort { failure }),
        step_after(action, outcomes).spec_writes() is None,
    decreases outcomes.len(),
{
    let earlier = outcomes.drop_last();
    if at == outcomes.len() - 1 {
        assert(outcomes.take(at) =~= earlier);
    } else {
        assert(earlier.take(at) =~= outcomes.take(at));
        lemma_failure_ends_invocation(action, earlier, at, failure);
    }
}

/// A stage that consumes a population whose artifact cannot be loaded fails
/// with the failure of the load, and no step of it writes anything: neither
/// the load itself nor what follows it.
pub proof fn lemma_failed_load_writes_nothing(
    action: Action,
    outcomes: Seq<Outcome>,
    failure: Failure,
    reported: int,
)
    requires
        !(action is Init),
        outcomes.len() >= 1,
        outcomes[0] == Outcome::Failed(failure),
        0 <= reported <= outcomes.len(),
    ensures
        step_after(action, outcomes.take(reported)).spec_writes() is None,
        reported >= 1 ==> step_after(action, outcomes.take(reported)) == (Step::Abort { failure }),
{
    let seen = outcomes.take(reported);
    if reported >= 1 {
        assert(seen.take(0) =~= Seq::<Outcome>::empty());
        lemma_failure_ends_invocation(action, seen, 0, failure);
    } else {
        assert(seen =~= Seq::<Outcome>::empty());
    }
}

/// The random generator is handed over at most once: the one step that
/// takes it is the second of the invocation, and the first did not fail.
pub proof fn lemma_generator_taken_once(action: Action, outcomes: Seq<Outcome>)
    requires
        step_after(action, outcomes).spec_takes_generator(),
    ensures
        outcomes.len() == 1,
        all_done(outcomes),
{
    lemma_step_tells_progress(action, outcomes);
}

/// Every invocation is at its end after three outcomes at the latest, and
/// stays there.
pub proof fn lemma_invocation_ends(action: Action, outcomes: Seq<Outcome>)
    requires
        outcomes.len() >= 3,
    ensures
        step_after(action, outcomes).is_final(),
{
    lemma_step_tells_progress(action, outcomes);
}

/// The plan of an action lists the steps of an invocation in which every
/// step succeeds.
pub proof fn lemma_plan_is_run_without_failure(action: Action, outcomes: Seq<Outcome>)
    requires
        all_done(outcomes),
        outcomes.len() < spec_plan(action).len(),
    ensures
        step_after(action, outcomes) == spec_plan(action)[outcomes.len() as int],
        spec_plan(action).last() == Step::Finish,
    decreases outcomes.len(),
{
    if outcomes.len() > 0 {
        let earlier = outcomes.drop_last();
        assert(all_done(earlier)) by {
            assert forall|i: int| 0 <= i < earlier.len() implies #[trigger] earlier[i]
                == Outcome::Done by {
                assert(outcomes[i] == Outcome::Done);
            }
        }
        lemma_plan_is_run_without_failure(action, earlier);
        assert(outcomes.last() == outcomes[outcomes.len() - 1]);
    }
}

} // verus!
