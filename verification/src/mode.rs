//! Rated/casual flag and the dense container keyed by it.

use vstd::prelude::*;

verus! {

/// Whether a game was played for rating points.
#[derive(Clone, Copy, Debug, PartialEq, Eq, Hash, Structural)]
pub enum Mode {
    Rated,
    Casual,
}

impl Mode {
    pub open spec fn rated_spec(self) -> bool {
        self == Mode::Rated
    }

    pub fn from_rated(rated: bool) -> (r: Mode)
        ensures
            r.rated_spec() == rated,
    {
        if rated {
            Mode::Rated
        } else {
            Mode::Casual
        }
    }

    pub fn is_rated(&self) -> (r: bool)
        ensures
            r == self.rated_spec(),
    {
        match self {
            Mode::Rated => true,
            Mode::Casual => false,
        }
    }
}

/// One value per mode: a dense mapping over the closed enumeration.
#[derive(Clone, Copy, Debug, PartialEq, Eq)]
#[verifier::ext_equal]
pub struct ByMode<T> {
    pub rated: T,
    pub casual: T,
}

impl<T> ByMode<T> {
    /// The value stored for `mode`.
    pub open spec fn get_spec(self, mode: Mode) -> T {
        match mode {
            Mode::Rated => self.rated,
            Mode::Casual => self.casual,
        }
    }

    /// This container with the value for `mode` replaced by `v`.
    pub open spec fn with_spec(self, mode: Mode, v: T) -> ByMode<T> {
        ByMode {
            rated: if mode == Mode::Rated {
                v
            } else {
                self.rated
            },
            casual: if mode == Mode::Casual {
                v
            } else {
                self.casual
            },
        }
    }

    pub fn by_mode(&self, mode: Mode) -> (r: &T)
        ensures
            *r == self.get_spec(mode),
    {
        match mode {
            Mode::Rated => &self.rated,
            Mode::Casual => &self.casual,
        }
    }

    pub fn by_mode_mut(&mut self, mode: Mode) -> (r: &mut T)
        ensures
            *r == old(self).get_spec(mode),
            *final(self) == old(self).with_spec(mode, *final(r)),
    {
        match mode {
            Mode::Rated => &mut self.rated,
            Mode::Casual => &mut self.casual,
        }
    }

    pub fn as_ref(&self) -> (r: ByMode<&T>)
        ensures
            *r.rated == self.rated,
            *r.casual == self.casual,
    {
        ByMode { rated: &self.rated, casual: &self.casual }
    }
}

} // verus!
