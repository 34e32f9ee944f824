//! Speed classes (time-control categories) and the dense container keyed by
//! them.

use vstd::prelude::*;

verus! {

/// Time-control class of a game. The order of the variants is part of the
/// wire format and must never change.
#[derive(Clone, Copy, Debug, PartialEq, Eq, PartialOrd, Ord, Hash, Structural)]
pub enum Speed {
    UltraBullet,
    Bullet,
    Blitz,
    Rapid,
    Classical,
    Correspondence,
}

/// A string did not name a speed class.
#[derive(Clone, Copy, Debug, PartialEq, Eq, Structural)]
pub struct InvalidSpeed;

/// One value per speed class: a dense mapping over the closed enumeration,
/// with no allocation and compile-time exhaustiveness.
#[derive(Clone, Copy, Debug, PartialEq, Eq)]
#[verifier::ext_equal]
pub struct BySpeed<T> {
    pub ultra_bullet: T,
    pub bullet: T,
    pub blitz: T,
    pub rapid: T,
    pub classical: T,
    pub correspondence: T,
}

impl<T> BySpeed<T> {
    /// The value stored for `speed`.
    pub open spec fn get_spec(self, speed: Speed) -> T {
        match speed {
            Speed::UltraBullet => self.ultra_bullet,
            Speed::Bullet => self.bullet,
            Speed::Blitz => self.blitz,
            Speed::Rapid => self.rapid,
            Speed::Classical => self.classical,
            Speed::Correspondence => self.correspondence,
        }
    }

    /// This container with the value for `speed` replaced by `v`.
    pub open spec fn with_spec(self, speed: Speed, v: T) -> BySpeed<T> {
        BySpeed {
            ultra_bullet: if speed == Speed::UltraBullet {
                v
            } else {
                self.ultra_bullet
            },
            bullet: if speed == Speed::Bullet {
                v
            } else {
                self.bullet
            },
            blitz: if speed == Speed::Blitz {
                v
            } else {
                self.blitz
            },
            rapid: if speed == Speed::Rapid {
                v
            } else {
                self.rapid
            },
            classical: if speed == Speed::Classical {
                v
            } else {
                self.classical
            },
            correspondence: if speed == Speed::Correspondence {
                v
            } else {
                self.correspondence
            },
        }
    }

    pub fn by_speed(&self, speed: Speed) -> (r: &T)
        ensures
            *r == self.get_spec(speed),
    {
        match speed {
            Speed::UltraBullet => &self.ultra_bullet,
            Speed::Bullet => &self.bullet,
            Speed::Blitz => &self.blitz,
            Speed::Rapid => &self.rapid,
            Speed::Classical => &self.classical,
            Speed::Correspondence => &self.correspondence,
        }
    }

    pub fn by_speed_mut(&mut self, speed: Speed) -> (r: &mut T)
        ensures
            *r == old(self).get_spec(speed),
            *final(self) == old(self).with_spec(speed, *final(r)),
    {
        match speed {
            Speed::UltraBullet => &mut self.ultra_bullet,
            Speed::Bullet => &mut self.bullet,
            Speed::Blitz => &mut self.blitz,
            Speed::Rapid => &mut self.rapid,
            Speed::Classical => &mut self.classical,
            Speed::Correspondence => &mut self.correspondence,
        }
    }

    pub fn as_ref(&self) -> (r: BySpeed<&T>)
        ensures
            *r.ultra_bullet == self.ultra_bullet,
            *r.bullet == self.bullet,
            *r.blitz == self.blitz,
            *r.rapid == self.rapid,
            *r.classical == self.classical,
            *r.correspondence == self.correspondence,
    {
        BySpeed {
            ultra_bullet: &self.ultra_bullet,
            bullet: &self.bullet,
            blitz: &self.blitz,
            rapid: &self.rapid,
            classical: &self.classical,
            correspondence: &self.correspondence,
        }
    }

    /// Applies `f` to every speed class in wire order, stopping at the first
    /// error.
    pub fn try_map<U, E, F: Fn(Speed, T) -> Result<U, E>>(self, f: F) -> (r: Result<BySpeed<U>, E>)
        requires
            call_requires(f, (Speed::UltraBullet, self.ultra_bullet)),
            call_requires(f, (Speed::Bullet, self.bullet)),
            call_requires(f, (Speed::Blitz, self.blitz)),
            call_requires(f, (Speed::Rapid, self.rapid)),
            call_requires(f, (Speed::Classical, self.classical)),
            call_requires(f, (Speed::Correspondence, self.correspondence)),
        ensures
            match r {
                Ok(u) => call_ensures(f, (Speed::UltraBullet, self.ultra_bullet), Ok(u.ultra_bullet))
                    && call_ensures(f, (Speed::Bullet, self.bullet), Ok(u.bullet)) && call_ensures(
                    f,
                    (Speed::Blitz, self.blitz),
                    Ok(u.blitz),
                ) && call_ensures(f, (Speed::Rapid, self.rapid), Ok(u.rapid)) && call_ensures(
                    f,
                    (Speed::Classical, self.classical),
                    Ok(u.classical),
                ) && call_ensures(f, (Speed::Correspondence, self.correspondence), Ok(u.correspondence)),
                Err(e) => call_ensures(f, (Speed::UltraBullet, self.ultra_bullet), Err(e))
                    || call_ensures(f, (Speed::Bullet, self.bullet), Err(e)) || call_ensures(
                    f,
                    (Speed::Blitz, self.blitz),
                    Err(e),
                ) || call_ensures(f, (Speed::Rapid, self.rapid), Err(e)) || call_ensures(
                    f,
                    (Speed::Classical, self.classical),
                    Err(e),
                ) || call_ensures(f, (Speed::Correspondence, self.correspondence), Err(e)),
            },
    {
        let ultra_bullet = match f(Speed::UltraBullet, self.ultra_bullet) {
            Ok(u) => u,
            Err(e) => {
                return Err(e);
            },
        };
        let bullet = match f(Speed::Bullet, self.bullet) {
            Ok(u) => u,
            Err(e) => {
                return Err(e);
            },
        };
        let blitz = match f(Speed::Blitz, self.blitz) {
            Ok(u) => u,
            Err(e) => {
                return Err(e);
            },
        };
        let rapid = match f(Speed::Rapid, self.rapid) {
            Ok(u) => u,
            Err(e) => {
                return Err(e);
            },
        };
        let classical = match f(Speed::Classical, self.classical) {
            Ok(u) => u,
            Err(e) => {
                return Err(e);
            },
        };
        let correspondence = match f(Speed::Correspondence, self.correspondence) {
            Ok(u) => u,
            Err(e) => {
                return Err(e);
            },
        };
        Ok(BySpeed { ultra_bullet, bullet, blitz, rapid, classical, correspondence })
    }
}

} // verus!
