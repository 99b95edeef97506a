//! A projectile: fired by a player, it travels at a fixed speed along the
//! heading captured at fire time until its time-to-live runs out.

use vstd::prelude::*;

verus! {

use crate::WORLD_FP;
use crate::fixed::ANGLE_FULL;
use crate::fixed::cos_spec;
use crate::fixed::sin_spec;
use crate::fixed::tdiv;
use crate::fixed::wrap_spec;
use crate::fixed::cos_fp;
use crate::fixed::sin_fp;
use crate::fixed::mul_fp;
use crate::fixed::wrap_coord;
use crate::entropy::fresh_id;
use crate::numfmt::dec_rep;
use crate::numfmt::fixed_rep;
use crate::numfmt::push_dec;
use crate::numfmt::push_fixed;

/// Collision radius of a projectile, in fixed-point units.
pub const BULLET_RADIUS_FP: i64 = 2000;

/// Base speed of a projectile, in fixed-point units per tick; the firing
/// player's momentum is added on top.
pub const BULLET_BASE_SPEED: i64 = 3000;

/// Ticks a projectile lives before expiring.
pub const BULLET_TTL: u32 = 8192;

/// Largest projectile speed the simulation ever produces.
pub const BULLET_MAX_SPEED: i64 = 10_000_000;

#[derive(Clone, Copy)]
pub struct Bullet {
    pub id: u128,
    pub player_id: u128,
    pub x: i64,
    pub y: i64,
    pub angle: u32,
    pub v: i64,
    pub ttl: u32,
}

impl Bullet {
    /// Geometric and kinematic sanity of a projectile.
    pub open spec fn wf(self) -> bool {
        &&& 0 <= self.x < WORLD_FP
        &&& 0 <= self.y < WORLD_FP
        &&& self.angle < ANGLE_FULL
        &&& 0 <= self.v <= BULLET_MAX_SPEED
    }

    /// The projectile one tick later: moved along its fixed heading and
    /// wrapped, with the time-to-live decremented but never below zero.
    pub open spec fn moved(self) -> Bullet {
        Bullet {
            x: wrap_spec(self.x + tdiv(self.v * cos_spec(self.angle as int), 1000)) as i64,
            y: wrap_spec(self.y + tdiv(self.v * sin_spec(self.angle as int), 1000)) as i64,
            ttl: if self.ttl > 0 {
                (self.ttl - 1) as u32
            } else {
                0
            },
            ..self
        }
    }

    /// A fresh projectile at the firing position; the identity is drawn at
    /// random, everything else is fixed by the arguments.
    pub fn new(player_id: u128, x0: i64, y0: i64, angle: u32, v: i64) -> (b: Bullet)
        requires
            0 <= x0 < WORLD_FP,
            0 <= y0 < WORLD_FP,
            angle < ANGLE_FULL,
            0 <= v <= BULLET_MAX_SPEED,
        ensures
            b == (Bullet { id: b.id, player_id, x: x0, y: y0, angle, v, ttl: BULLET_TTL }),
            b.wf(),
    {
        Bullet { id: fresh_id(), player_id, x: x0, y: y0, angle, v, ttl: BULLET_TTL }
    }

    /// Advances the projectile one tick: integrate, wrap, count the
    /// time-to-live down with a floor at zero.
    pub fn update(&mut self)
        requires
            old(self).wf(),
        ensures
            *final(self) == old(self).moved(),
            final(self).wf(),
    {
        let c = cos_fp(self.angle);
        let s = sin_fp(self.angle);
        let dx = mul_fp(self.v, c);
        let dy = mul_fp(self.v, s);
        proof {
            vstd::arithmetic::mul::lemma_mul_upper_bound(
                crate::fixed::abs_spec(self.v as int),
                BULLET_MAX_SPEED as int,
                crate::fixed::abs_spec(c as int),
                1000,
            );
            vstd::arithmetic::mul::lemma_mul_upper_bound(
                crate::fixed::abs_spec(self.v as int),
                BULLET_MAX_SPEED as int,
                crate::fixed::abs_spec(s as int),
                1000,
            );
        }
        self.x = wrap_coord(self.x + dx);
        self.y = wrap_coord(self.y + dy);
        if self.ttl > 0 {
            self.ttl = self.ttl - 1;
        }
    }

    /// The snapshot text for one projectile: its identity and its owner's
    /// quoted, the position as fixed-point decimals.
    pub open spec fn json(self) -> Seq<char> {
        "{\"id\":\""@ + dec_rep(self.id as nat) + "\",\"player_id\":\""@ + dec_rep(
            self.player_id as nat,
        ) + "\",\"x\":"@ + fixed_rep(self.x as int) + ",\"y\":"@ + fixed_rep(self.y as int)
            + "}"@
    }

    /// Serializes the projectile for the snapshot.
    pub fn to_json(&self) -> (r: String)
        requires
            self.wf(),
        ensures
            r@ == self.json(),
    {
        let mut s = String::new();
        s.append("{\"id\":\"");
        push_dec(&mut s, self.id);
        s.append("\",\"player_id\":\"");
        push_dec(&mut s, self.player_id);
        s.append("\",\"x\":");
        push_fixed(&mut s, self.x);
        s.append(",\"y\":");
        push_fixed(&mut s, self.y);
        s.append("}");
        proof {
            assert(s@ =~= self.json());
        }
        s
    }

    /// An expired projectile is inert and due to be purged.
    pub fn is_destroyed(&self) -> (r: bool)
        ensures
            r == (self.ttl == 0),
    {
        self.ttl == 0
    }

    /// Forces expiry, so the next sweep removes the projectile.
    pub fn destroy(&mut self)
        ensures
            *final(self) == (Bullet { ttl: 0, ..*old(self) }),
    {
        self.ttl = 0;
    }
}

} // verus!
