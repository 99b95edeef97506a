//! The asteroid field: owns every drifting asteroid, spawns fresh BIG ones
//! on a cooldown, and splits a destroyed asteroid into two children of the
//! next-smaller tier.

use vstd::prelude::*;

verus! {

use crate::TICK_RATE;
use crate::WORLD_FP;
use crate::asteroid::Asteroid;
use crate::asteroid::AsteroidType;
use crate::asteroid::child_of;
use crate::asteroid::radius_of;
use crate::asteroid::speed_of;
use crate::entropy::random_below;

/// The asteroid list items, comma-separated, in field order.
pub open spec fn asteroid_items(s: Seq<Asteroid>) -> Seq<char>
    decreases s.len(),
{
    if s.len() == 0 {
        Seq::empty()
    } else if s.len() == 1 {
        s[0].json()
    } else {
        asteroid_items(s.drop_last()) + ","@ + s.last().json()
    }
}

/// The snapshot text of a whole asteroid list.
pub open spec fn asteroids_json(s: Seq<Asteroid>) -> Seq<char> {
    "\"Asteroids\":["@ + asteroid_items(s) + "]"@
}

/// Cap on the population that fresh BIG spawns respect; splitting is
/// exempt.
pub const MAX_ASTEROIDS: usize = 16;

/// Ticks between two spawn attempts.
pub const SPAWN_COOLDOWN: u32 = 60 * TICK_RATE;

/// Head start of the spawn counter when the field is created.
pub const SPAWN_COUNTER_START: u32 = TICK_RATE;

pub struct AsteroidCollection {
    pub asteroids: Vec<Asteroid>,
    pub max_asteroids: usize,
    pub spawn_counter: u32,
    pub spawn_cooldown: u32,
}

impl AsteroidCollection {
    /// Every asteroid is sane and the spawn counter has not run past its
    /// threshold.
    pub open spec fn wf(self) -> bool {
        &&& self.max_asteroids == MAX_ASTEROIDS
        &&& self.spawn_cooldown == SPAWN_COOLDOWN
        &&& self.spawn_counter <= self.spawn_cooldown
        &&& forall|i: int| 0 <= i < self.asteroids@.len() ==> (#[trigger] self.asteroids@[i]).wf()
    }

    pub fn new() -> (c: AsteroidCollection)
        ensures
            c.asteroids@ == Seq::<Asteroid>::empty(),
            c.max_asteroids == MAX_ASTEROIDS,
            c.spawn_cooldown == SPAWN_COOLDOWN,
            c.spawn_counter == SPAWN_COUNTER_START,
            c.wf(),
    {
        AsteroidCollection {
            asteroids: Vec::new(),
            max_asteroids: MAX_ASTEROIDS,
            spawn_cooldown: SPAWN_COOLDOWN,
            spawn_counter: SPAWN_COUNTER_START,
        }
    }

    /// Adds one asteroid of the given tier at the given position. A BIG
    /// spawn respects the population cap and is refused at it; MEDIUM and
    /// SMALL spawns (the children of a split) are never capacity-limited.
    pub fn spawn(&mut self, x: i64, y: i64, tier: AsteroidType) -> (r: bool)
        requires
            old(self).wf(),
            0 <= x < WORLD_FP,
            0 <= y < WORLD_FP,
        ensures
            r == !(tier == AsteroidType::BIG && old(self).asteroids@.len() >= MAX_ASTEROIDS),
            !r ==> *final(self) == *old(self),
            r ==> final(self).asteroids@.len() == old(self).asteroids@.len() + 1,
            r ==> final(self).asteroids@.drop_last() == old(self).asteroids@,
            r ==> final(self).asteroids@.last() == (Asteroid {
                id: final(self).asteroids@.last().id,
                x,
                y,
                radius: radius_of(tier),
                size: tier,
                v: speed_of(tier),
                angle: final(self).asteroids@.last().angle,
            }),
            r ==> final(self).spawn_counter == old(self).spawn_counter,
            final(self).wf(),
    {
        if matches!(tier, AsteroidType::BIG) && self.asteroids.len() >= self.max_asteroids {
            return false;
        }
        let a = Asteroid::new(x, y, tier);
        self.asteroids.push(a);
        proof {
            assert(final(self).asteroids@.drop_last() =~= old(self).asteroids@);
        }
        true
    }

    /// Spawns one BIG asteroid at a position drawn uniformly from the
    /// world; refused without any change when the field is at its cap.
    pub fn random_spawn(&mut self) -> (r: bool)
        requires
            old(self).wf(),
        ensures
            r == (old(self).asteroids@.len() < MAX_ASTEROIDS),
            !r ==> *final(self) == *old(self),
            r ==> final(self).asteroids@.len() == old(self).asteroids@.len() + 1,
            r ==> final(self).asteroids@.drop_last() == old(self).asteroids@,
            r ==> final(self).asteroids@.last().size == AsteroidType::BIG,
            r ==> final(self).spawn_counter == old(self).spawn_counter,
            final(self).wf(),
    {
        let x = random_below(WORLD_FP);
        let y = random_below(WORLD_FP);
        self.spawn(x, y, AsteroidType::BIG)
    }

    /// Moves every asteroid one tick.
    pub fn update(&mut self)
        requires
            old(self).wf(),
        ensures
            final(self).asteroids@ == old(self).asteroids@.map_values(|a: Asteroid| a.moved()),
            final(self).spawn_counter == old(self).spawn_counter,
            final(self).wf(),
    {
        let ghost orig = self.asteroids@;
        let mut moved: Vec<Asteroid> = Vec::new();
        let n = self.asteroids.len();
        let mut i: usize = 0;
        proof {
            assert(orig.take(0int).map_values(|a: Asteroid| a.moved()) =~= Seq::<
                Asteroid,
            >::empty());
        }
        while i < n
            invariant
                n == orig.len(),
                0 <= i <= n,
                self.asteroids@ == orig,
                forall|j: int| 0 <= j < n ==> (#[trigger] orig[j]).wf(),
                moved@ == orig.take(i as int).map_values(|a: Asteroid| a.moved()),
                forall|j: int| 0 <= j < moved@.len() ==> (#[trigger] moved@[j]).wf(),
            decreases n - i,
        {
            let mut a = self.asteroids[i];
            a.update();
            proof {
                let m = |aa: Asteroid| aa.moved();
                assert(orig.take(i + 1).map_values(m) =~= orig.take(i as int).map_values(m).push(
                    orig[i as int].moved(),
                ));
            }
            moved.push(a);
            i = i + 1;
        }
        proof {
            assert(orig.take(n as int) =~= orig);
        }
        self.asteroids = moved;
    }

    /// One step of the spawn controller: the cooldown counter advances, and
    /// when it reaches the threshold one random BIG spawn is attempted and
    /// the counter starts over. The attempt is refused at the population
    /// cap, but the counter starts over either way.
    pub fn maybe_spawn(&mut self) -> (r: bool)
        requires
            old(self).wf(),
        ensures
            final(self).spawn_counter == if old(self).spawn_counter + 1 >= SPAWN_COOLDOWN {
                0u32
            } else {
                (old(self).spawn_counter + 1) as u32
            },
            r == (old(self).spawn_counter + 1 >= SPAWN_COOLDOWN && old(self).asteroids@.len()
                < MAX_ASTEROIDS),
            r ==> final(self).asteroids@.len() == old(self).asteroids@.len() + 1,
            r ==> final(self).asteroids@.drop_last() == old(self).asteroids@,
            r ==> final(self).asteroids@.last().size == AsteroidType::BIG,
            !r ==> final(self).asteroids@ == old(self).asteroids@,
            final(self).wf(),
    {
        let next = self.spawn_counter + 1;
        if next >= self.spawn_cooldown {
            let spawned = self.random_spawn();
            self.spawn_counter = 0;
            spawned
        } else {
            self.spawn_counter = next;
            false
        }
    }

    /// Removes the asteroid at `index` (a no-op past the end) and, when its
    /// tier has children, spawns exactly two of the next-smaller tier at the
    /// removed asteroid's position, exempt from the population cap. The
    /// removal itself swaps the last asteroid into the hole.
    pub fn remove_at(&mut self, index: usize)
        requires
            old(self).wf(),
        ensures
            index >= old(self).asteroids@.len() ==> *final(self) == *old(self),
            index < old(self).asteroids@.len() ==> {
                let removed = old(self).asteroids@[index as int];
                let base = old(self).asteroids@.update(
                    index as int,
                    old(self).asteroids@.last(),
                ).drop_last();
                match child_of(removed.size) {
                    None => final(self).asteroids@ == base,
                    Some(cs) => {
                        &&& final(self).asteroids@.len() == base.len() + 2
                        &&& final(self).asteroids@.subrange(0, base.len() as int) == base
                        &&& forall|k: int|
                            base.len() <= k < base.len() + 2 ==> {
                                let c = #[trigger] final(self).asteroids@[k];
                                c.size == cs && c.x == removed.x && c.y == removed.y && c.radius
                                    == radius_of(cs) && c.v == speed_of(cs)
                            }
                    },
                }
            },
            final(self).spawn_counter == old(self).spawn_counter,
            final(self).wf(),
    {
        if index >= self.asteroids.len() {
            return;
        }
        let asteroid = self.asteroids.swap_remove(index);
        let ghost base = self.asteroids@;
        let child = match asteroid.size {
            AsteroidType::BIG => Some(AsteroidType::MEDIUM),
            AsteroidType::MEDIUM => Some(AsteroidType::SMALL),
            AsteroidType::SMALL => None,
        };
        if let Some(child_size) = child {
            self.spawn(asteroid.x, asteroid.y, child_size);
            self.spawn(asteroid.x, asteroid.y, child_size);
            proof {
                assert(final(self).asteroids@.subrange(0, base.len() as int) =~= base);
            }
        }
    }

    /// Empties the field.
    pub fn clear(&mut self)
        requires
            old(self).wf(),
        ensures
            final(self).asteroids@ == Seq::<Asteroid>::empty(),
            final(self).spawn_counter == old(self).spawn_counter,
            final(self).wf(),
    {
        self.asteroids.clear();
    }

    /// Serializes the field for the snapshot; the order is the field's own
    /// and is stable within one encode.
    pub fn to_json(&self) -> (r: String)
        requires
            self.wf(),
        ensures
            r@ == asteroids_json(self.asteroids@),
    {
        let mut s = String::new();
        s.append("\"Asteroids\":[");
        let n = self.asteroids.len();
        let mut i: usize = 0;
        proof {
            assert(self.asteroids@.take(0int) =~= Seq::<Asteroid>::empty());
        }
        while i < n
            invariant
                n == self.asteroids@.len(),
                0 <= i <= n,
                self.wf(),
                s@ == "\"Asteroids\":["@ + asteroid_items(self.asteroids@.take(i as int)),
            decreases n - i,
        {
            if i > 0 {
                s.append(",");
            }
            let item = self.asteroids[i].to_json();
            s.append(item.as_str());
            proof {
                let pre = self.asteroids@.take(i as int);
                let ext = self.asteroids@.take(i + 1);
                assert(ext.drop_last() =~= pre);
                assert(ext.last() == self.asteroids@[i as int]);
                assert(s@ =~= "\"Asteroids\":["@ + asteroid_items(ext));
            }
            i = i + 1;
        }
        proof {
            assert(self.asteroids@.take(n as int) =~= self.asteroids@);
        }
        s.append("]");
        proof {
            assert(s@ =~= asteroids_json(self.asteroids@));
        }
        s
    }

    pub fn get_all(&self) -> (r: &Vec<Asteroid>)
        ensures
            r@ == self.asteroids@,
    {
        &self.asteroids
    }

    pub fn len(&self) -> (r: usize)
        ensures
            r == self.asteroids@.len(),
    {
        self.asteroids.len()
    }

    pub fn is_empty(&self) -> (r: bool)
        ensures
            r == (self.asteroids@.len() == 0),
    {
        self.asteroids.is_empty()
    }
}

} // verus!
