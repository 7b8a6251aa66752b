//! The switching logic of bang-bang control.

use vstd::prelude::*;

verus! {

/// The sign of the switching function `sigma`; `Singular` when it is neither
/// positive nor negative.
#[derive(Clone, Copy, Debug, PartialEq, Eq, Structural)]
pub enum SwitchingSign {
    Positive,
    Negative,
    Singular,
}

/// The bang-bang control law: the lower bound where the switching function
/// is positive, the upper bound where it is negative, and `singular` on a
/// singular arc.
pub fn bangbang_select<T: Copy>(sign: SwitchingSign, u_min: T, u_max: T, singular: T) -> (u: T)
    ensures
        sign == SwitchingSign::Positive ==> u == u_min,
        sign == SwitchingSign::Negative ==> u == u_max,
        sign == SwitchingSign::Singular ==> u == singular,
{
    match sign {
        SwitchingSign::Positive => u_min,
        SwitchingSign::Negative => u_max,
        SwitchingSign::Singular => singular,
    }
}

/// The sign of one sample of a switching function: positive, negative, zero,
/// or undefined (the function gave no number).
#[derive(Clone, Copy, Debug, PartialEq, Eq, Structural)]
pub enum SampleSign {
    Positive,
    Negative,
    Zero,
    Undefined,
}

/// Two samples differ in sign unless they have the same defined sign; an
/// undefined sign differs from every sign, itself included.
pub open spec fn spec_signs_differ(a: SampleSign, b: SampleSign) -> bool {
    !(a == b && a != SampleSign::Undefined)
}

/// Whether two sample signs differ, in the sense of `spec_signs_differ`.
pub fn signs_differ(a: SampleSign, b: SampleSign) -> (d: bool)
    ensures
        d == spec_signs_differ(a, b),
{
    match (a, b) {
        (SampleSign::Positive, SampleSign::Positive) => false,
        (SampleSign::Negative, SampleSign::Negative) => false,
        (SampleSign::Zero, SampleSign::Zero) => false,
        _ => true,
    }
}

/// The sign scan that locates the switching times of a sampled switching
/// function: it remembers the sign of the last switch (or of the start), and
/// reports a switch at every nonzero sample whose sign differs from it.
pub struct SignScan {
    pub previous: SampleSign,
}

impl SignScan {
    /// Starts from the sign of the first sample, a zero counting as positive.
    pub fn new(first: SampleSign) -> (scan: Self)
        ensures
            scan.previous == if first == SampleSign::Zero { SampleSign::Positive } else { first },
    {
        if first == SampleSign::Zero {
            SignScan { previous: SampleSign::Positive }
        } else {
            SignScan { previous: first }
        }
    }

    /// Looks at the next sample: zero samples are skipped; a sample whose sign
    /// differs from the remembered one is a switch, and its sign is
    /// remembered from then on.  Returns whether it is a switch.
    pub fn observe(&mut self, sign: SampleSign) -> (switch: bool)
        ensures
            switch == (sign != SampleSign::Zero && spec_signs_differ(sign, old(self).previous)),
            final(self).previous == if switch { sign } else { old(self).previous },
    {
        if sign == SampleSign::Zero {
            false
        } else if signs_differ(sign, self.previous) {
            self.previous = sign;
            true
        } else {
            false
        }
    }
}

/// The record of the switch of a time-optimal double-integrator run: whether
/// the control has switched, and the switch time once it has.
pub struct SwitchLog<T> {
    switched: bool,
    times: Vec<T>,
}

impl<T> SwitchLog<T> {
    /// A switch time is recorded exactly when the control has switched, and
    /// at most one is.
    #[verifier::type_invariant]
    closed spec fn one_time_once_switched(self) -> bool {
        if self.switched {
            self.times@.len() == 1
        } else {
            self.times@.len() == 0
        }
    }

    /// Whether the control has switched.
    pub closed spec fn has_switched(self) -> bool {
        self.switched
    }

    /// The recorded switch times.
    pub closed spec fn recorded(self) -> Seq<T> {
        self.times@
    }
}

impl<T: Copy> SwitchLog<T> {
    /// No switch yet.
    pub fn new() -> (log: Self)
        ensures
            !log.has_switched(),
            log.recorded().len() == 0,
    {
        SwitchLog { switched: false, times: Vec::new() }
    }

    /// Records one integration step that ends at `t_after`; `crossed` tells
    /// whether the switching function changed sign over the step.  The first
    /// crossing switches the control and records `t_after` as the switch time;
    /// after that the record stays as it is.  Returns whether the control has
    /// switched by the end of the step.
    pub fn record_step(&mut self, t_after: T, crossed: bool) -> (switched: bool)
        ensures
            switched == final(self).has_switched(),
            final(self).has_switched() == (old(self).has_switched() || crossed),
            old(self).has_switched() ==> final(self).recorded() == old(self).recorded(),
            !old(self).has_switched() && crossed ==> final(self).recorded() == seq![t_after],
            !old(self).has_switched() && !crossed ==> final(self).recorded().len() == 0,
            final(self).recorded().len() <= 1,
    {
        proof {
            use_type_invariant(&*self);
        }
        if !self.switched && crossed {
            let mut times: Vec<T> = Vec::new();
            times.push(t_after);
            assert(times@ =~= seq![t_after]);
            *self = SwitchLog { switched: true, times };
        }
        self.switched
    }

    /// Whether the control has switched.
    pub fn switched(&self) -> (b: bool)
        ensures
            b == self.has_switched(),
    {
        self.switched
    }

    /// The recorded switch times: empty before the switch, the switch time
    /// after it.
    pub fn into_times(self) -> (times: Vec<T>)
        ensures
            times@ == self.recorded(),
            times@.len() == (if self.has_switched() { 1int } else { 0int }),
    {
        proof {
            use_type_invariant(&self);
        }
        self.times
    }
}

} // verus!
