//! Steppers: states that advance one step at a time.

use core::ops::ControlFlow;
use vstd::prelude::*;

verus! {

/// This trait represents a linearly advanceable state whose advancement may
/// break or fail with many different return values, and to which part of
/// the information, called the context, has to be supplied on each call as a
/// mutable reference argument.
///
/// An object that implements this trait is called a "stepper".
///
/// Steppers always progress linearly and their future states are determined by
/// the initial state. It is assumed that the changes in context cannot change
/// the stepper's execution.
pub trait Step<Ctx, B, C = ()> {
    type Error;

    /// The state that the stepper keeps between steps.
    spec fn inv(&self) -> bool;

    /// Advance the stepper's state by one step.
    fn step(&mut self, context: &mut Ctx) -> (r: Result<ControlFlow<B, C>, Self::Error>)
        requires
            old(self).inv(),
        ensures
            final(self).inv(),
    ;
}

/// Steppers that may be stepped backwards implement this trait.
pub trait StepBack<Ctx, S, E> {
    /// Retreat the stepper's state by one step.
    fn step_back(&mut self, context: &mut Ctx) -> Result<S, E>;
}

/// Steppers that may be aborted implement this trait.
///
/// Aborting a stepper puts it and its context back in its initial state, except
/// that from then on trying to step or step back always fails.
pub trait Abort<Ctx> {
    /// Abort the stepper.
    fn abort(&mut self, context: &mut Ctx);
}

/// Some steppers may be permuted from their initial order.
pub trait Reconfigure<Ctx> {
    type Configuration;
    type Output;

    fn reconfigure(&mut self, context: &mut Ctx, configuration: Self::Configuration) -> Self::Output;
}

#[derive(Clone, Copy, Debug)]
pub enum ReconfiguratorStatus<Re, Ru> {
    Running(Ru),
    Reconfigured(Re),
}

/// Steppers that can receive discrete events and act on them implement this
/// trait.
pub trait OnEvent<Ctx, Event> {
    type Output;

    fn on_event(&mut self, context: &mut Ctx, event: Event) -> Self::Output;
}

/// A value on a scale from zero to a maximum, with a finer scale below it.
#[derive(Clone, Copy, Debug)]
pub struct LinearScale<V, S = ()> {
    value: V,
    maximum: V,
    subscale: S,
}

impl<V, S> LinearScale<V, S> {
    pub fn new(value: V, reference: V, subscale: S) -> (r: Self)
        ensures
            r.spec_value() == value,
            r.spec_maximum() == reference,
            r.spec_subscale() == subscale,
    {
        Self { value, maximum: reference, subscale }
    }

    pub closed spec fn spec_value(&self) -> V {
        self.value
    }

    pub closed spec fn spec_maximum(&self) -> V {
        self.maximum
    }

    pub closed spec fn spec_subscale(&self) -> S {
        self.subscale
    }

    pub fn value(&self) -> (r: &V)
        ensures
            *r == self.spec_value(),
    {
        &self.value
    }

    pub fn maximum(&self) -> (r: &V)
        ensures
            *r == self.spec_maximum(),
    {
        &self.maximum
    }

    pub fn subscale(&self) -> (r: &S)
        ensures
            *r == self.spec_subscale(),
    {
        &self.subscale
    }
}

/// Some steppers report estimates of how far they are from completion.
pub trait EstimateProgress {
    type Value;
    type Subscale;

    fn estimate_progress(&self) -> LinearScale<Self::Value, Self::Subscale>;
}

} // verus!
