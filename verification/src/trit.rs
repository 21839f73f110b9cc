//! The ternary digit and its clamped arithmetic.

use vstd::prelude::*;

verus! {

/// A ternary trit value: Negative (-1), Zero (0), or Positive (+1).
#[derive(Debug, Clone, Copy, PartialEq, Eq, Hash, Structural)]
pub enum Trit {
    Negative,
    Zero,
    Positive,
}

impl Trit {
    /// The integer a trit stands for.
    pub open spec fn value(self) -> int {
        match self {
            Trit::Negative => -1,
            Trit::Zero => 0,
            Trit::Positive => 1,
        }
    }

    /// The trit nearest to an integer: its sign, with everything outside `[-1, 1]`
    /// clamped to the nearer end.
    pub open spec fn from_value(v: int) -> Trit {
        if v < 0 {
            Trit::Negative
        } else if v == 0 {
            Trit::Zero
        } else {
            Trit::Positive
        }
    }

    /// Convert an integer to a Trit. Clamps values outside [-1, 1].
    pub fn from_int(v: i8) -> (t: Trit)
        ensures
            t == Trit::from_value(v as int),
    {
        if v == -1 {
            Trit::Negative
        } else if v == 0 {
            Trit::Zero
        } else if v == 1 {
            Trit::Positive
        } else if v < 0 {
            Trit::Negative
        } else {
            Trit::Positive
        }
    }

    /// Convert to integer value.
    pub fn to_int(self) -> (v: i8)
        ensures
            v as int == self.value(),
    {
        match self {
            Trit::Negative => -1,
            Trit::Zero => 0,
            Trit::Positive => 1,
        }
    }

    /// Whether this trit is nonzero.
    pub fn is_nonzero(self) -> (b: bool)
        ensures
            b == (self != Trit::Zero),
    {
        !matches!(self, Trit::Zero)
    }
}


impl Trit {
    /// The negation of a trit.
    pub open spec fn negated(self) -> Trit {
        Trit::from_value(-self.value())
    }

    /// The clamped sum of two trits.
    pub open spec fn plus(self, other: Trit) -> Trit {
        Trit::from_value(self.value() + other.value())
    }

    /// The product of two trits (never leaves `[-1, 1]`).
    pub open spec fn times(self, other: Trit) -> Trit {
        Trit::from_value(self.value() * other.value())
    }
}

impl core::ops::Neg for Trit {
    type Output = Trit;

    fn neg(self) -> (t: Trit)
        ensures
            t == self.negated(),
    {
        match self {
            Trit::Negative => Trit::Positive,
            Trit::Zero => Trit::Zero,
            Trit::Positive => Trit::Negative,
        }
    }
}

impl vstd::std_specs::ops::NegSpecImpl for Trit {
    open spec fn obeys_neg_spec() -> bool {
        true
    }

    open spec fn neg_req(self) -> bool {
        true
    }

    open spec fn neg_spec(self) -> Trit {
        self.negated()
    }
}

impl core::ops::Add for Trit {
    type Output = Trit;

    fn add(self, other: Trit) -> (t: Trit)
        ensures
            t == self.plus(other),
    {
        Trit::from_int(self.to_int() + other.to_int())
    }
}

impl vstd::std_specs::ops::AddSpecImpl for Trit {
    open spec fn obeys_add_spec() -> bool {
        true
    }

    open spec fn add_req(self, rhs: Trit) -> bool {
        true
    }

    open spec fn add_spec(self, rhs: Trit) -> Trit {
        self.plus(rhs)
    }
}

impl core::ops::Mul for Trit {
    type Output = Trit;

    fn mul(self, other: Trit) -> (t: Trit)
        ensures
            t == self.times(other),
    {
        Trit::from_int(self.to_int() * other.to_int())
    }
}

impl vstd::std_specs::ops::MulSpecImpl for Trit {
    open spec fn obeys_mul_spec() -> bool {
        true
    }

    open spec fn mul_req(self, rhs: Trit) -> bool {
        true
    }

    open spec fn mul_spec(self, rhs: Trit) -> Trit {
        self.times(rhs)
    }
}

} // verus!
