use vstd::prelude::*;

verus! {

/// A rotary encoder: a quadrature counter and a push button, read through
/// on every query and never cached.
pub struct Encoder<Q, B> {
    qei: Q,
    button: B,
}

impl<Q, B> Encoder<Q, B> {
    /// The quadrature counter.
    pub closed spec fn counter(&self) -> Q {
        self.qei
    }

    /// The button input.
    pub closed spec fn button_input(&self) -> B {
        self.button
    }

    /// An encoder over the given counter and button.
    pub fn new(qei: Q, button: B) -> (r: Encoder<Q, B>)
        ensures
            r.counter() == qei,
            r.button_input() == button,
    {
        Encoder { qei, button }
    }

    /// The quadrature counter, to read the count from.
    pub fn qei(&self) -> (r: &Q)
        ensures
            *r == self.counter(),
    {
        &self.qei
    }

    /// The button input, to read the level from.
    pub fn button(&self) -> (r: &B)
        ensures
            *r == self.button_input(),
    {
        &self.button
    }
}

} // verus!
