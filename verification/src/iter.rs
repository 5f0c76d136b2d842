use vstd::prelude::*;

use crate::entity::EntityAny;

verus! {

/// Whether an iteration query goes on after visiting an entity.
#[derive(Clone, Copy, Debug, PartialEq, Eq, Structural)]
pub enum EcsStep {
    Continue,
    Break,
}

/// Whether an iteration query goes on after visiting an entity, and whether
/// it destroys that entity.
#[derive(Clone, Copy, Debug, PartialEq, Eq, Structural)]
pub enum EcsStepDestroy {
    Continue,
    Break,
    ContinueDestroy,
    BreakDestroy,
}

impl EcsStepDestroy {
    /// Whether the step destroys the visited entity.
    pub open spec fn spec_destroys(self) -> bool {
        self is ContinueDestroy || self is BreakDestroy
    }

    /// Whether the step ends the whole query.
    pub open spec fn spec_breaks(self) -> bool {
        self is Break || self is BreakDestroy
    }

    /// Whether the step destroys the visited entity.
    pub fn destroys(&self) -> (r: bool)
        ensures
            r == self.spec_destroys(),
    {
        match self {
            EcsStepDestroy::ContinueDestroy | EcsStepDestroy::BreakDestroy => true,
            _ => false,
        }
    }
}

/// Where a backwards walk over an archetype goes after a visit.
#[derive(Clone, Copy, Debug, PartialEq, Eq, Structural)]
pub enum EcsWalk {
    /// Visit the entity at this dense position next.
    Next(usize),
    /// Every entity of the archetype was visited.
    Finished,
    /// The query was broken off.
    Stopped,
}

/// An ordered entity creation or destruction event of an archetype or world.
#[derive(Clone, Copy, Debug, PartialEq, Eq, Structural)]
pub enum EcsEvent {
    Created(EntityAny),
    Destroyed(EntityAny),
}

impl Default for EcsStep {
    fn default() -> (r: Self)
        ensures
            r == EcsStep::Continue,
    {
        EcsStep::Continue
    }
}

impl Default for EcsStepDestroy {
    fn default() -> (r: Self)
        ensures
            r == EcsStepDestroy::Continue,
    {
        EcsStepDestroy::Continue
    }
}

impl From<()> for EcsStep {
    fn from(_unit: ()) -> (r: Self)
        ensures
            r == EcsStep::Continue,
    {
        EcsStep::Continue
    }
}

impl vstd::std_specs::convert::FromSpecImpl<()> for EcsStep {
    open spec fn obeys_from_spec() -> bool {
        true
    }

    open spec fn from_spec(v: ()) -> Self {
        EcsStep::Continue
    }
}

impl From<()> for EcsStepDestroy {
    fn from(_unit: ()) -> (r: Self)
        ensures
            r == EcsStepDestroy::Continue,
            !r.spec_destroys(),
            !r.spec_breaks(),
    {
        EcsStepDestroy::Continue
    }
}

impl vstd::std_specs::convert::FromSpecImpl<()> for EcsStepDestroy {
    open spec fn obeys_from_spec() -> bool {
        true
    }

    open spec fn from_spec(v: ()) -> Self {
        EcsStepDestroy::Continue
    }
}

/// A step of a plain iteration, as a step of a destroying iteration.
pub open spec fn destroy_step_of(step: EcsStep) -> EcsStepDestroy {
    match step {
        EcsStep::Continue => EcsStepDestroy::Continue,
        EcsStep::Break => EcsStepDestroy::Break,
    }
}

impl From<EcsStep> for EcsStepDestroy {
    fn from(step: EcsStep) -> (r: Self)
        ensures
            !r.spec_destroys(),
            r.spec_breaks() <==> step == EcsStep::Break,
    {
        match step {
            EcsStep::Continue => EcsStepDestroy::Continue,
            EcsStep::Break => EcsStepDestroy::Break,
        }
    }
}

impl vstd::std_specs::convert::FromSpecImpl<EcsStep> for EcsStepDestroy {
    open spec fn obeys_from_spec() -> bool {
        true
    }

    open spec fn from_spec(v: EcsStep) -> Self {
        destroy_step_of(v)
    }
}

/// What each step of a destroying iteration does: `Continue` keeps the
/// entity and goes on, `Break` keeps it and stops, `ContinueDestroy`
/// destroys it and goes on, `BreakDestroy` destroys it and stops.
pub proof fn lemma_step_meanings(step: EcsStepDestroy)
    ensures
        step == EcsStepDestroy::Continue ==> !step.spec_destroys() && !step.spec_breaks(),
        step == EcsStepDestroy::Break ==> !step.spec_destroys() && step.spec_breaks(),
        step == EcsStepDestroy::ContinueDestroy ==> step.spec_destroys() && !step.spec_breaks(),
        step == EcsStepDestroy::BreakDestroy ==> step.spec_destroys() && step.spec_breaks(),
{
}

/// A closure that returns nothing keeps every entity and goes on: its step,
/// taken directly or through a plain step, neither destroys nor breaks, and
/// it is the default step.
pub proof fn lemma_unit_step_keeps_going()
    ensures
        <EcsStepDestroy as vstd::std_specs::convert::FromSpec<()>>::from_spec(()) == <EcsStepDestroy as vstd::std_specs::convert::FromSpec<EcsStep>>::from_spec(
            <EcsStep as vstd::std_specs::convert::FromSpec<()>>::from_spec(()),
        ),
        !<EcsStepDestroy as vstd::std_specs::convert::FromSpec<()>>::from_spec(()).spec_destroys(),
        !<EcsStepDestroy as vstd::std_specs::convert::FromSpec<()>>::from_spec(()).spec_breaks(),
        <EcsStep as vstd::std_specs::convert::FromSpec<()>>::from_spec(()) != EcsStep::Break,
{
}

/// A plain step never destroys, and it breaks exactly when the plain step
/// does.
pub proof fn lemma_plain_step_never_destroys(step: EcsStep)
    ensures
        !<EcsStepDestroy as vstd::std_specs::convert::FromSpec<EcsStep>>::from_spec(step).spec_destroys(),
        <EcsStepDestroy as vstd::std_specs::convert::FromSpec<EcsStep>>::from_spec(step).spec_breaks() <==> step
            == EcsStep::Break,
{
}

} // verus!
