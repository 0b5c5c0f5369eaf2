//! Numeric primitive scaffolding consumed by later compiler stages: the
//! `Clamp`, `Number` and `Float` traits, with their implementations for
//! the built-in integer types. The floating-point carriers (half-precision
//! floats and the short vector types over them) implement the same
//! vocabulary in the unverified layer around this library, since verified
//! code takes no floating point.

use vstd::prelude::*;

verus! {

/// Clamping a value into the closed range `[min, max]`: values below the
/// range come back as `min`, values above it as `max`.
pub trait Clamp: Sized {
    /// What clamping means for this carrier.
    spec fn spec_clamp(self, min: Self, max: Self) -> Self;

    fn clamp(self, min: Self, max: Self) -> (r: Self)
        ensures
            r == self.spec_clamp(min, max),
    ;
}

/// A plain numeric carrier: copyable and closed under the arithmetic
/// operators.
pub trait Number: Sized + Copy + core::ops::Add<Output = Self> + core::ops::Sub<
    Output = Self,
> + core::ops::Mul<Output = Self> + core::ops::Div<Output = Self> + core::ops::Rem<
    Output = Self,
> {

}

/// A marker for floating-point carriers; its implementors live in the
/// unverified layer, where the floating-point types do.
pub trait Float {

}

impl Number for i8 {

}

impl Clamp for i8 {
    open spec fn spec_clamp(self, min: Self, max: Self) -> Self {
        if self < min {
            min
        } else if self > max {
            max
        } else {
            self
        }
    }

    fn clamp(self, min: Self, max: Self) -> Self {
        if self < min {
            min
        } else if self > max {
            max
        } else {
            self
        }
    }
}

impl Number for i16 {

}

impl Clamp for i16 {
    open spec fn spec_clamp(self, min: Self, max: Self) -> Self {
        if self < min {
            min
        } else if self > max {
            max
        } else {
            self
        }
    }

    fn clamp(self, min: Self, max: Self) -> Self {
        if self < min {
            min
        } else if self > max {
            max
        } else {
            self
        }
    }
}

impl Number for i32 {

}

impl Clamp for i32 {
    open spec fn spec_clamp(self, min: Self, max: Self) -> Self {
        if self < min {
            min
        } else if self > max {
            max
        } else {
            self
        }
    }

    fn clamp(self, min: Self, max: Self) -> Self {
        if self < min {
            min
        } else if self > max {
            max
        } else {
            self
        }
    }
}

impl Number for i64 {

}

impl Clamp for i64 {
    open spec fn spec_clamp(self, min: Self, max: Self) -> Self {
        if self < min {
            min
        } else if self > max {
            max
        } else {
            self
        }
    }

    fn clamp(self, min: Self, max: Self) -> Self {
        if self < min {
            min
        } else if self > max {
            max
        } else {
            self
        }
    }
}

impl Number for u8 {

}

impl Clamp for u8 {
    open spec fn spec_clamp(self, min: Self, max: Self) -> Self {
        if self < min {
            min
        } else if self > max {
            max
        } else {
            self
        }
    }

    fn clamp(self, min: Self, max: Self) -> Self {
        if self < min {
            min
        } else if self > max {
            max
        } else {
            self
        }
    }
}

impl Number for u16 {

}

impl Clamp for u16 {
    open spec fn spec_clamp(self, min: Self, max: Self) -> Self {
        if self < min {
            min
        } else if self > max {
            max
        } else {
            self
        }
    }

    fn clamp(self, min: Self, max: Self) -> Self {
        if self < min {
            min
        } else if self > max {
            max
        } else {
            self
        }
    }
}

impl Number for u32 {

}

impl Clamp for u32 {
    open spec fn spec_clamp(self, min: Self, max: Self) -> Self {
        if self < min {
            min
        } else if self > max {
            max
        } else {
            self
        }
    }

    fn clamp(self, min: Self, max: Self) -> Self {
        if self < min {
            min
        } else if self > max {
            max
        } else {
            self
        }
    }
}

impl Number for u64 {

}

impl Clamp for u64 {
    open spec fn spec_clamp(self, min: Self, max: Self) -> Self {
        if self < min {
            min
        } else if self > max {
            max
        } else {
            self
        }
    }

    fn clamp(self, min: Self, max: Self) -> Self {
        if self < min {
            min
        } else if self > max {
            max
        } else {
            self
        }
    }
}

} // verus!
