//! The step budget of a ray march: a march stops at the first step that
//! reaches the surface, or after a fixed number of steps.
use vstd::prelude::*;

verus! {

/// Steps a single ray may take before it is taken to have escaped.
pub const MAX_STEPS: u32 = 50;

/// What one step of a march found.
#[derive(Debug, Clone, Copy, PartialEq, Eq, Structural)]
pub enum StepKind {
    /// The ray passed through the medium and goes on.
    Continue,
    /// The ray reached the surface.
    Hit,
}

/// The state of one ray's march.
#[derive(Debug, Clone, Copy)]
pub struct March {
    steps: u32,
    hit: bool,
}

impl March {
    #[verifier::type_invariant]
    spec fn inv(self) -> bool {
        self.steps <= MAX_STEPS
    }

    pub closed spec fn spec_steps(self) -> nat {
        self.steps as nat
    }

    pub closed spec fn spec_hit(self) -> bool {
        self.hit
    }

    /// Whether the march takes another step.
    pub open spec fn spec_running(self) -> bool {
        !self.spec_hit() && self.spec_steps() < MAX_STEPS
    }

    /// A march that has taken no step.
    pub fn new() -> (r: March)
        ensures
            r.spec_steps() == 0,
            !r.spec_hit(),
    {
        March { steps: 0, hit: false }
    }

    /// Whether the march takes another step: it has not reached the surface
    /// and has steps left.
    pub fn running(&self) -> (r: bool)
        ensures
            r == self.spec_running(),
    {
        !self.hit && self.steps < MAX_STEPS
    }

    /// Records what the step just taken found.
    pub fn record(&mut self, kind: StepKind)
        requires
            old(self).spec_running(),
        ensures
            final(self).spec_steps() == old(self).spec_steps() + 1,
            final(self).spec_hit() == (kind == StepKind::Hit),
    {
        proof {
            use_type_invariant(&*self);
        }
        self.steps = self.steps + 1;
        self.hit = kind == StepKind::Hit;
    }

    pub fn steps(&self) -> (r: u32)
        ensures
            r == self.spec_steps(),
            r <= MAX_STEPS,
    {
        proof {
            use_type_invariant(self);
        }
        self.steps
    }

    pub fn hit(&self) -> (r: bool)
        ensures
            r == self.spec_hit(),
    {
        self.hit
    }
}

} // verus!
