//! A drifting asteroid: a three-tier obstacle that moves at a constant,
//! tier-dependent speed along a heading drawn at random when it is spawned.

use vstd::prelude::*;

verus! {

use crate::WORLD_FP;
use crate::FP;
use crate::fixed::ANGLE_FULL;
use crate::fixed::cos_spec;
use crate::fixed::sin_spec;
use crate::fixed::tdiv;
use crate::fixed::wrap_spec;
use crate::fixed::cos_fp;
use crate::fixed::sin_fp;
use crate::fixed::mul_fp;
use crate::fixed::wrap_coord;
use crate::entropy::fresh_id;
use crate::entropy::random_below;
use crate::numfmt::dec_rep;
use crate::numfmt::fixed_rep;
use crate::numfmt::push_dec;
use crate::numfmt::push_fixed;

/// Size tiers, ordered: a destroyed asteroid splits into two of the
/// next-smaller tier, and the smallest has no children.
#[derive(Clone, Copy, PartialEq, Eq, Structural, Debug)]
pub enum AsteroidType {
    SMALL,
    MEDIUM,
    BIG,
}

/// Collision radius of a tier, in world units.
pub open spec fn radius_of(size: AsteroidType) -> u8 {
    match size {
        AsteroidType::BIG => 35,
        AsteroidType::MEDIUM => 25,
        AsteroidType::SMALL => 15,
    }
}

/// Drift speed of a tier, in fixed-point units per tick: the bigger, the
/// slower.
pub open spec fn speed_of(size: AsteroidType) -> i64 {
    match size {
        AsteroidType::BIG => (2 * FP) as i64,
        AsteroidType::MEDIUM => (4 * FP) as i64,
        AsteroidType::SMALL => (6 * FP) as i64,
    }
}

/// The tier the two children of a destroyed asteroid have, if any.
pub open spec fn child_of(size: AsteroidType) -> Option<AsteroidType> {
    match size {
        AsteroidType::BIG => Some(AsteroidType::MEDIUM),
        AsteroidType::MEDIUM => Some(AsteroidType::SMALL),
        AsteroidType::SMALL => None,
    }
}

#[derive(Clone, Copy)]
pub struct Asteroid {
    pub id: u128,
    pub x: i64,
    pub y: i64,
    pub radius: u8,
    pub size: AsteroidType,
    pub v: i64,
    pub angle: u32,
}

impl Asteroid {
    /// Radius and speed are a pure function of the tier, and the position
    /// and heading are in range.
    pub open spec fn wf(self) -> bool {
        &&& 0 <= self.x < WORLD_FP
        &&& 0 <= self.y < WORLD_FP
        &&& self.angle < ANGLE_FULL
        &&& self.radius == radius_of(self.size)
        &&& self.v == speed_of(self.size)
    }

    /// The asteroid one tick later: moved at its constant speed along its
    /// fixed heading and wrapped.
    pub open spec fn moved(self) -> Asteroid {
        Asteroid {
            x: wrap_spec(self.x + tdiv(self.v * cos_spec(self.angle as int), 1000)) as i64,
            y: wrap_spec(self.y + tdiv(self.v * sin_spec(self.angle as int), 1000)) as i64,
            ..self
        }
    }

    /// A fresh asteroid of the given tier at the given position. The
    /// identity and the heading are drawn at random; radius and speed follow
    /// from the tier alone.
    pub fn new(x: i64, y: i64, size: AsteroidType) -> (a: Asteroid)
        requires
            0 <= x < WORLD_FP,
            0 <= y < WORLD_FP,
        ensures
            a == (Asteroid {
                id: a.id,
                x,
                y,
                radius: radius_of(size),
                size,
                v: speed_of(size),
                angle: a.angle,
            }),
            a.wf(),
    {
        let r: u8 = match size {
            AsteroidType::BIG => 35,
            AsteroidType::MEDIUM => 25,
            AsteroidType::SMALL => 15,
        };
        let v: i64 = match size {
            AsteroidType::BIG => 2 * FP,
            AsteroidType::MEDIUM => 4 * FP,
            AsteroidType::SMALL => 6 * FP,
        };
        let angle = random_below(ANGLE_FULL as i64) as u32;
        Asteroid { id: fresh_id(), x, y, radius: r, size, v, angle }
    }

    /// The snapshot text for one asteroid: identity and radius quoted, the
    /// position as fixed-point decimals.
    pub open spec fn json(self) -> Seq<char> {
        "{\"id\":\""@ + dec_rep(self.id as nat) + "\",\"radius\":\""@ + dec_rep(
            self.radius as nat,
        ) + "\",\"x\":"@ + fixed_rep(self.x as int) + ",\"y\":"@ + fixed_rep(self.y as int)
            + "}"@
    }

    /// Serializes the asteroid for the snapshot.
    pub fn to_json(&self) -> (r: String)
        requires
            self.wf(),
        ensures
            r@ == self.json(),
    {
        let mut s = String::new();
        s.append("{\"id\":\"");
        push_dec(&mut s, self.id);
        s.append("\",\"radius\":\"");
        push_dec(&mut s, self.radius as u128);
        s.append("\",\"x\":");
        push_fixed(&mut s, self.x);
        s.append(",\"y\":");
        push_fixed(&mut s, self.y);
        s.append("}");
        proof {
            assert(s@ =~= self.json());
        }
        s
    }

    /// Advances the asteroid one tick: integrate at constant speed, wrap.
    pub fn update(&mut self)
        requires
            old(self).wf(),
        ensures
            *final(self) == old(self).moved(),
            final(self).wf(),
    {
        let c = cos_fp(self.angle);
        let s = sin_fp(self.angle);
        let dx = mul_fp(self.v, c);
        let dy = mul_fp(self.v, s);
        proof {
            vstd::arithmetic::mul::lemma_mul_upper_bound(
                crate::fixed::abs_spec(self.v as int),
                6 * FP as int,
                crate::fixed::abs_spec(c as int),
                1000,
            );
            vstd::arithmetic::mul::lemma_mul_upper_bound(
                crate::fixed::abs_spec(self.v as int),
                6 * FP as int,
                crate::fixed::abs_spec(s as int),
                1000,
            );
        }
        self.x = wrap_coord(self.x + dx);
        self.y = wrap_coord(self.y + dy);
    }
}

} // verus!
