//! A player's ship: buffered commands, per-tick physics, cooldown-gated
//! firing, and the player's own projectile collection.

use vstd::prelude::*;

verus! {

use crate::TICK_RATE;
use crate::FP;
use crate::WORLD_FP;
use crate::bullet::BULLET_BASE_SPEED;
use crate::bullet::BULLET_MAX_SPEED;
use crate::bullet::BULLET_TTL;
use crate::bullet::Bullet;
use crate::bullet_collection::BulletCollection;
use crate::bullet_collection::MAX_BULLETS;
use crate::fixed::ANGLE_FULL;
use crate::fixed::abs_spec;
use crate::fixed::cos_spec;
use crate::fixed::sin_spec;
use crate::fixed::cos_fp;
use crate::fixed::sin_fp;
use crate::fixed::isqrt;
use crate::fixed::mul_fp;
use crate::fixed::tdiv;
use crate::fixed::wrap_spec;
use crate::fixed::wrap_coord;
use crate::numfmt::dec_rep;
use crate::numfmt::fixed_rep;
use crate::numfmt::push_dec;
use crate::numfmt::push_fixed;

/// One buffered command, parsed from a peer's raw text.
#[derive(Clone, Copy, PartialEq, Eq, Structural, Debug)]
pub enum CMD {
    UP,
    LEFT,
    RIGHT,
    SHOT,
    NONE,
}

/// Collision radius of a ship, in fixed-point units.
pub const PLAYER_RADIUS_FP: i64 = 10_000;

/// Where a fresh ship appears.
pub const PLAYER_START_X: i64 = 100_000;

/// Where a fresh ship appears.
pub const PLAYER_START_Y: i64 = 100_000;

/// Turn units a LEFT or RIGHT command rotates the ship per tick.
pub const TURN_SPEED: u32 = 1;

/// Thrust an UP command adds along the heading, fixed-point per tick.
pub const ACCELERATION: i64 = 31;

/// Per-tick velocity decay factor, in thousandths (strictly below one).
pub const FRICTION: i64 = 999;

/// Capacity of the command queue.
pub const INPUT_BUFFER_CAP: usize = 2;

/// Ticks that must pass between two shots.
pub const SHOT_COOLDOWN: u32 = TICK_RATE;

/// Backward impulse a shot gives the ship, fixed-point per tick.
pub const RECOIL: i64 = 200;

/// Largest velocity component the physics can ever produce: friction decays
/// velocity faster than thrust and recoil can replenish it.
pub const VEL_MAX: i64 = 4_000_000;

/// The part of a ship that the per-tick physics acts on.
pub ghost struct Motion {
    pub x: int,
    pub y: int,
    pub vx: int,
    pub vy: int,
    pub angle: int,
    pub fired: bool,
}

/// One command applied to the motion state: thrust follows the heading at
/// the moment the command is processed, turns change only the heading, SHOT
/// only records the intent.
pub open spec fn cmd_step(m: Motion, acc: int, turn: int, c: CMD) -> Motion {
    match c {
        CMD::UP => Motion {
            vx: m.vx + tdiv(acc * cos_spec(m.angle), 1000),
            vy: m.vy + tdiv(acc * sin_spec(m.angle), 1000),
            ..m
        },
        CMD::LEFT => Motion { angle: (m.angle + ANGLE_FULL - turn) % (ANGLE_FULL as int), ..m },
        CMD::RIGHT => Motion { angle: (m.angle + turn) % (ANGLE_FULL as int), ..m },
        CMD::SHOT => Motion { fired: true, ..m },
        CMD::NONE => m,
    }
}

/// All buffered commands applied in arrival order.
pub open spec fn cmds_fold(m: Motion, acc: int, turn: int, cmds: Seq<CMD>) -> Motion
    decreases cmds.len(),
{
    if cmds.len() == 0 {
        m
    } else {
        cmds_fold(cmd_step(m, acc, turn, cmds[0]), acc, turn, cmds.skip(1))
    }
}

/// After the commands: integrate the position once, apply friction, wrap.
pub open spec fn integrated(m: Motion, friction: int) -> Motion {
    Motion {
        x: wrap_spec(m.x + m.vx),
        y: wrap_spec(m.y + m.vy),
        vx: tdiv(m.vx * friction, 1000),
        vy: tdiv(m.vy * friction, 1000),
        ..m
    }
}

pub struct Player {
    pub x: i64,
    pub y: i64,
    pub angle: u32,
    pub vx: i64,
    pub vy: i64,
    pub turn_speed: u32,
    pub acceleration: i64,
    pub friction: i64,
    pub input_buffer: Vec<CMD>,
    pub buffer_size: usize,
    pub client_id: u128,
    pub is_destroyed: bool,
    pub shot_cooldown: u32,
    pub shot_counter: u32,
    pub bullets: BulletCollection,
}

/// The command queue after a push: the oldest entry is evicted first when
/// the queue is full, so it never grows past its capacity.
pub open spec fn queue_pushed(q: Seq<CMD>, c: CMD, cap: int) -> Seq<CMD> {
    if q.len() >= cap {
        q.skip(1).push(c)
    } else {
        q.push(c)
    }
}

/// The projectile speed a firing ship imparts: the base speed plus the
/// floor of the ship's momentum magnitude, which this predicate pins to a
/// unique value.
pub open spec fn speed_from_momentum(v: int, vx: int, vy: int) -> bool {
    let mag = v - BULLET_BASE_SPEED;
    &&& mag >= 0
    &&& mag * mag <= vx * vx + vy * vy
    &&& vx * vx + vy * vy < (mag + 1) * (mag + 1)
}

/// A batch of pushes, first command first.
pub open spec fn queue_pushed_all(q: Seq<CMD>, cmds: Seq<CMD>, cap: int) -> Seq<CMD>
    decreases cmds.len(),
{
    if cmds.len() == 0 {
        q
    } else {
        queue_pushed_all(queue_pushed(q, cmds[0], cap), cmds.skip(1), cap)
    }
}

impl Player {
    /// Geometry in range, velocity inside the friction-enforced envelope,
    /// command queue within its capacity, tunables sane.
    pub open spec fn wf(self) -> bool {
        &&& 0 <= self.x < WORLD_FP
        &&& 0 <= self.y < WORLD_FP
        &&& self.angle < ANGLE_FULL
        &&& abs_spec(self.vx as int) <= VEL_MAX
        &&& abs_spec(self.vy as int) <= VEL_MAX
        &&& self.buffer_size == INPUT_BUFFER_CAP
        &&& self.input_buffer@.len() <= self.buffer_size
        &&& 1 <= self.turn_speed < ANGLE_FULL
        &&& 0 <= self.acceleration <= FP
        &&& 0 <= self.friction < FP
        &&& 1 <= self.shot_cooldown
        &&& self.bullets.wf()
    }

    /// The motion state the buffered commands start from.
    pub open spec fn motion(self) -> Motion {
        Motion {
            x: self.x as int,
            y: self.y as int,
            vx: self.vx as int,
            vy: self.vy as int,
            angle: self.angle as int,
            fired: false,
        }
    }

    /// The motion state after one tick's worth of commands and physics.
    pub open spec fn moved_spec(self, cmds: Seq<CMD>) -> Motion {
        integrated(
            cmds_fold(self.motion(), self.acceleration as int, self.turn_speed as int, cmds),
            self.friction as int,
        )
    }

    /// A fresh ship for the given connection: fixed spawn point, heading
    /// zero, at rest, empty queue and projectile collection, and a shot
    /// counter that starts at the cooldown so the first shot is allowed.
    pub fn new(client_id: u128) -> (p: Player)
        ensures
            p.x == PLAYER_START_X,
            p.y == PLAYER_START_Y,
            p.angle == 0,
            p.vx == 0,
            p.vy == 0,
            p.turn_speed == TURN_SPEED,
            p.acceleration == ACCELERATION,
            p.friction == FRICTION,
            p.input_buffer@ == Seq::<CMD>::empty(),
            p.buffer_size == INPUT_BUFFER_CAP,
            p.client_id == client_id,
            p.is_destroyed == false,
            p.shot_cooldown == SHOT_COOLDOWN,
            p.shot_counter == SHOT_COOLDOWN,
            p.bullets.bullets@ == Seq::<Bullet>::empty(),
            p.wf(),
    {
        Player {
            x: PLAYER_START_X,
            y: PLAYER_START_Y,
            angle: 0,
            vx: 0,
            vy: 0,
            turn_speed: TURN_SPEED,
            acceleration: ACCELERATION,
            friction: FRICTION,
            input_buffer: Vec::new(),
            buffer_size: INPUT_BUFFER_CAP,
            client_id,
            is_destroyed: false,
            shot_cooldown: SHOT_COOLDOWN,
            shot_counter: SHOT_COOLDOWN,
            bullets: BulletCollection::new(),
        }
    }

    /// Buffers one command; at capacity the oldest buffered command is
    /// evicted first, so the queue never exceeds its capacity and the order
    /// of the remaining commands is preserved.
    pub fn push_command(&mut self, cmd: CMD)
        requires
            old(self).wf(),
        ensures
            final(self).input_buffer@ == queue_pushed(
                old(self).input_buffer@,
                cmd,
                INPUT_BUFFER_CAP as int,
            ),
            final(self).input_buffer@.len() <= INPUT_BUFFER_CAP,
            *final(self) == (Player { input_buffer: final(self).input_buffer, ..*old(self) }),
            final(self).wf(),
    {
        if self.input_buffer.len() >= self.buffer_size {
            self.input_buffer.remove(0);
            proof {
                assert(self.input_buffer@ =~= old(self).input_buffer@.skip(1));
            }
        }
        self.input_buffer.push(cmd);
    }

    /// Buffers a batch of commands in order, each push evicting the oldest
    /// entry once the queue is at capacity.
    pub fn push_commands(&mut self, cmds: &Vec<CMD>)
        requires
            old(self).wf(),
        ensures
            final(self).input_buffer@ == queue_pushed_all(
                old(self).input_buffer@,
                cmds@,
                INPUT_BUFFER_CAP as int,
            ),
            *final(self) == (Player { input_buffer: final(self).input_buffer, ..*old(self) }),
            final(self).wf(),
    {
        let ghost q0 = self.input_buffer@;
        let ghost cap = INPUT_BUFFER_CAP as int;
        let n = cmds.len();
        let mut i: usize = 0;
        proof {
            assert(cmds@.skip(0int) =~= cmds@);
        }
        while i < n
            invariant
                self.wf(),
                n == cmds@.len(),
                0 <= i <= n,
                queue_pushed_all(q0, cmds@, cap) == queue_pushed_all(
                    self.input_buffer@,
                    cmds@.skip(i as int),
                    cap,
                ),
                cap == INPUT_BUFFER_CAP as int,
                *self == (Player { input_buffer: self.input_buffer, ..*old(self) }),
            decreases n - i,
        {
            self.push_command(cmds[i]);
            proof {
                assert(cmds@.skip(i as int)[0] == cmds@[i as int]);
                assert(cmds@.skip(i as int).skip(1) =~= cmds@.skip(i + 1));
            }
            i = i + 1;
        }
        proof {
            assert(cmds@.skip(n as int) =~= Seq::<CMD>::empty());
        }
    }

    /// Empties the command queue; every tick drains it fully.
    pub fn clear_input_buffer(&mut self)
        ensures
            final(self).input_buffer@ == Seq::<CMD>::empty(),
            *final(self) == (Player { input_buffer: final(self).input_buffer, ..*old(self) }),
    {
        self.input_buffer.clear();
    }

    /// The cooldown has elapsed: at least `shot_cooldown` ticks have passed
    /// since the last shot.
    pub fn can_shoot(&self) -> (r: bool)
        ensures
            r == (self.shot_counter >= self.shot_cooldown),
    {
        self.shot_counter >= self.shot_cooldown
    }

    /// Computes, without touching the ship, what the buffered commands and
    /// one physics step make of it: position, velocity, heading, and whether
    /// a SHOT intent was seen.
    fn apply_commands(&self, commands: &Vec<CMD>) -> (r: (i64, i64, i64, i64, u32, bool))
        requires
            self.wf(),
            commands@.len() <= INPUT_BUFFER_CAP,
        ensures
            ({
                let m = self.moved_spec(commands@);
                &&& r.0 == m.x
                &&& r.1 == m.y
                &&& r.2 == m.vx
                &&& r.3 == m.vy
                &&& r.4 == m.angle
                &&& r.5 == m.fired
                &&& 0 <= r.0 < WORLD_FP
                &&& 0 <= r.1 < WORLD_FP
                &&& r.4 < ANGLE_FULL
                &&& abs_spec(r.2 as int) <= VEL_MAX - RECOIL
                &&& abs_spec(r.3 as int) <= VEL_MAX - RECOIL
            }),
    {
        let ghost acc = self.acceleration as int;
        let ghost turn = self.turn_speed as int;
        let ghost m0 = self.motion();
        let mut x = self.x;
        let mut y = self.y;
        let mut vx = self.vx;
        let mut vy = self.vy;
        let mut angle = self.angle;
        let mut fired = false;
        let n = commands.len();
        let mut i: usize = 0;
        proof {
            assert(commands@.skip(0int) =~= commands@);
        }
        while i < n
            invariant
                self.wf(),
                n == commands@.len() <= INPUT_BUFFER_CAP,
                0 <= i <= n,
                acc == self.acceleration as int,
                turn == self.turn_speed as int,
                m0 == self.motion(),
                cmds_fold(m0, acc, turn, commands@) == cmds_fold(
                    (Motion {
                        x: x as int,
                        y: y as int,
                        vx: vx as int,
                        vy: vy as int,
                        angle: angle as int,
                        fired,
                    }),
                    acc,
                    turn,
                    commands@.skip(i as int),
                ),
                x == self.x,
                y == self.y,
                angle < ANGLE_FULL,
                abs_spec(vx as int) <= VEL_MAX + 1000 * i,
                abs_spec(vy as int) <= VEL_MAX + 1000 * i,
            decreases n - i,
        {
            let ghost pre = Motion {
                x: x as int,
                y: y as int,
                vx: vx as int,
                vy: vy as int,
                angle: angle as int,
                fired,
            };
            let cmd = commands[i];
            match cmd {
                CMD::UP => {
                    let dvx = mul_fp(self.acceleration, cos_fp(angle));
                    let dvy = mul_fp(self.acceleration, sin_fp(angle));
                    proof {
                        vstd::arithmetic::mul::lemma_mul_upper_bound(
                            abs_spec(self.acceleration as int),
                            FP as int,
                            abs_spec(cos_spec(angle as int)),
                            1000,
                        );
                        vstd::arithmetic::mul::lemma_mul_upper_bound(
                            abs_spec(self.acceleration as int),
                            FP as int,
                            abs_spec(sin_spec(angle as int)),
                            1000,
                        );
                    }
                    vx = vx + dvx;
                    vy = vy + dvy;
                },
                CMD::LEFT => {
                    angle = (angle + ANGLE_FULL - self.turn_speed) % ANGLE_FULL;
                },
                CMD::RIGHT => {
                    angle = (angle + self.turn_speed) % ANGLE_FULL;
                },
                CMD::SHOT => {
                    fired = true;
                },
                CMD::NONE => {},
            }
            proof {
                let post = Motion {
                    x: x as int,
                    y: y as int,
                    vx: vx as int,
                    vy: vy as int,
                    angle: angle as int,
                    fired,
                };
                assert(post == cmd_step(pre, acc, turn, commands@[i as int]));
                assert(commands@.skip(i as int)[0] == commands@[i as int]);
                assert(commands@.skip(i as int).skip(1) =~= commands@.skip(i + 1));
            }
            i = i + 1;
        }
        proof {
            assert(commands@.skip(n as int) =~= Seq::<CMD>::empty());
        }
        let nx = wrap_coord(x + vx);
        let ny = wrap_coord(y + vy);
        let nvx = mul_fp(vx, self.friction);
        let nvy = mul_fp(vy, self.friction);
        proof {
            vstd::arithmetic::mul::lemma_mul_upper_bound(
                abs_spec(vx as int),
                (VEL_MAX + 2000) as int,
                abs_spec(self.friction as int),
                999,
            );
            vstd::arithmetic::mul::lemma_mul_upper_bound(
                abs_spec(vy as int),
                (VEL_MAX + 2000) as int,
                abs_spec(self.friction as int),
                999,
            );
        }
        (nx, ny, nvx, nvy, angle, fired)
    }

    /// One tick of the ship: drains the buffered commands in arrival order,
    /// integrates the physics, and — when a SHOT intent was seen and the
    /// cooldown has elapsed — fires one projectile from the new position
    /// along the new heading at a speed derived from the ship's momentum,
    /// resets the cooldown counter, and applies a recoil impulse opposite
    /// the firing heading. The counter advances once per tick regardless.
    pub fn update(&mut self)
        requires
            old(self).wf(),
        ensures
            ({
                let m = old(self).moved_spec(old(self).input_buffer@);
                let fires = m.fired && old(self).shot_counter >= old(self).shot_cooldown;
                &&& final(self).x == m.x
                &&& final(self).y == m.y
                &&& final(self).angle == m.angle
                &&& final(self).vx == if fires {
                    m.vx - tdiv(RECOIL * cos_spec(m.angle), 1000)
                } else {
                    m.vx
                }
                &&& final(self).vy == if fires {
                    m.vy - tdiv(RECOIL * sin_spec(m.angle), 1000)
                } else {
                    m.vy
                }
                &&& final(self).shot_counter == if fires {
                    1u32
                } else if old(self).shot_counter < u32::MAX {
                    (old(self).shot_counter + 1) as u32
                } else {
                    u32::MAX
                }
                &&& final(self).input_buffer@.len() == 0
                &&& if fires && old(self).bullets.bullets@.len() < MAX_BULLETS {
                    &&& final(self).bullets.bullets@.len() == old(self).bullets.bullets@.len() + 1
                    &&& final(self).bullets.bullets@.drop_last() == old(self).bullets.bullets@
                    &&& final(self).bullets.bullets@.last().player_id == old(self).client_id
                    &&& final(self).bullets.bullets@.last().x == m.x
                    &&& final(self).bullets.bullets@.last().y == m.y
                    &&& final(self).bullets.bullets@.last().angle == m.angle
                    &&& final(self).bullets.bullets@.last().ttl == BULLET_TTL
                    &&& speed_from_momentum(
                        final(self).bullets.bullets@.last().v as int,
                        m.vx,
                        m.vy,
                    )
                } else {
                    final(self).bullets.bullets@ == old(self).bullets.bullets@
                }
                &&& final(self).client_id == old(self).client_id
                &&& final(self).is_destroyed == old(self).is_destroyed
                &&& final(self).turn_speed == old(self).turn_speed
                &&& final(self).acceleration == old(self).acceleration
                &&& final(self).friction == old(self).friction
                &&& final(self).shot_cooldown == old(self).shot_cooldown
                &&& final(self).wf()
            }),
    {
        let (x, y, vx, vy, angle, fired) = self.apply_commands(&self.input_buffer);
        self.x = x;
        self.y = y;
        self.vx = vx;
        self.vy = vy;
        self.angle = angle;
        if fired && self.can_shoot() {
            proof {
                assert(0 <= vx * vx <= 16_000_000_000_000 && 0 <= vy * vy
                    <= 16_000_000_000_000) by (nonlinear_arith)
                    requires
                        abs_spec(vx as int) <= VEL_MAX,
                        abs_spec(vy as int) <= VEL_MAX,
                        VEL_MAX == 4_000_000i64,
                ;
            }
            let mag2 = (vx * vx + vy * vy) as u64;
            let mag = isqrt(mag2);
            proof {
                assert(mag <= 6_000_000) by (nonlinear_arith)
                    requires
                        mag * mag < 36_000_000_000_000,
                ;
            }
            let speed = BULLET_BASE_SPEED + (mag as i64);
            let b = Bullet::new(self.client_id, x, y, angle, speed);
            let _ = self.bullets.add_bullet(b);
            self.shot_counter = 0;
            let rc = mul_fp(RECOIL, cos_fp(angle));
            let rs = mul_fp(RECOIL, sin_fp(angle));
            proof {
                vstd::arithmetic::mul::lemma_mul_upper_bound(
                    abs_spec(RECOIL as int),
                    RECOIL as int,
                    abs_spec(cos_spec(angle as int)),
                    1000,
                );
                vstd::arithmetic::mul::lemma_mul_upper_bound(
                    abs_spec(RECOIL as int),
                    RECOIL as int,
                    abs_spec(sin_spec(angle as int)),
                    1000,
                );
            }
            self.vx = vx - rc;
            self.vy = vy - rs;
        }
        self.clear_input_buffer();
        if self.shot_counter < u32::MAX {
            self.shot_counter = self.shot_counter + 1;
        }
    }

    /// The snapshot text for one ship: identity quoted, position as
    /// fixed-point decimals, heading in turn units, and the destroyed flag.
    pub open spec fn json(self) -> Seq<char> {
        "{\"id\":\""@ + dec_rep(self.client_id as nat) + "\",\"x\":"@ + fixed_rep(
            self.x as int,
        ) + ",\"y\":"@ + fixed_rep(self.y as int) + ",\"angle\":"@ + dec_rep(self.angle as nat)
            + ",\"is_destroyed\":"@ + (if self.is_destroyed {
            "true"@
        } else {
            "false"@
        }) + "}"@
    }

    /// Serializes the ship for the snapshot.
    pub fn to_json(&self) -> (r: String)
        requires
            self.wf(),
        ensures
            r@ == self.json(),
    {
        let mut s = String::new();
        s.append("{\"id\":\"");
        push_dec(&mut s, self.client_id);
        s.append("\",\"x\":");
        push_fixed(&mut s, self.x);
        s.append(",\"y\":");
        push_fixed(&mut s, self.y);
        s.append(",\"angle\":");
        push_dec(&mut s, self.angle as u128);
        s.append(",\"is_destroyed\":");
        if self.is_destroyed {
            s.append("true");
        } else {
            s.append("false");
        }
        s.append("}");
        proof {
            assert(s@ =~= self.json());
        }
        s
    }

    /// Marks the ship destroyed, for the snapshot that precedes eviction.
    pub fn destroy(&mut self)
        ensures
            *final(self) == (Player { is_destroyed: true, ..*old(self) }),
    {
        self.is_destroyed = true;
    }

    /// Position and heading, fixed-point and turn units.
    pub fn get_position(&self) -> (r: (i64, i64, u32))
        ensures
            r == (self.x, self.y, self.angle),
    {
        (self.x, self.y, self.angle)
    }

    pub fn get_id(&self) -> (r: u128)
        ensures
            r == self.client_id,
    {
        self.client_id
    }
}

/// The shot counter one tick later, when a SHOT intent is issued every
/// tick: a tick that may fire resets the counter, any other advances it.
pub open spec fn counter_after(c: nat, cooldown: nat) -> nat {
    if c >= cooldown {
        1
    } else {
        c + 1
    }
}

/// How many shots leave the ship over `n` ticks when a SHOT intent is
/// issued on every one of them, starting from counter value `c`.
pub open spec fn fires_in(c: nat, cooldown: nat, n: nat) -> nat
    decreases n,
{
    if n == 0 {
        0
    } else {
        (if c >= cooldown {
            1nat
        } else {
            0nat
        }) + fires_in(counter_after(c, cooldown), cooldown, (n - 1) as nat)
    }
}

/// While the counter is still catching up to the cooldown, no shot leaves
/// the ship.
pub proof fn lemma_no_fire_below(c: nat, cooldown: nat, n: nat)
    requires
        c + n <= cooldown,
    ensures
        fires_in(c, cooldown, n) == 0,
    decreases n,
{
    if n > 0 {
        lemma_no_fire_below(c + 1, cooldown, (n - 1) as nat)
    }
}

/// A ship cannot fire twice within the cooldown window: with a SHOT intent
/// issued on every tick and the counter at or past the cooldown, exactly one
/// shot leaves the ship in the next `cooldown` ticks. (The tick after that
/// window — the boundary — may fire again.) The counter here moves as
/// `Player::update` moves `shot_counter` on a tick whose commands contain
/// SHOT.
pub proof fn lemma_cooldown_window(c: nat, cooldown: nat)
    requires
        cooldown >= 1,
        c >= cooldown,
    ensures
        fires_in(c, cooldown, cooldown) == 1,
{
    lemma_no_fire_below(1, cooldown, (cooldown - 1) as nat);
}

} // verus!
