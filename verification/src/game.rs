//! The simulation orchestrator: owns the player registry and the asteroid
//! field, consumes gateway events between ticks, advances the world on a
//! fixed schedule, and serializes snapshots for broadcast.

use vstd::prelude::*;

verus! {

use crate::asteroid::AsteroidType;
use crate::asteroid_collection::AsteroidCollection;
use crate::asteroid_collection::asteroids_json;
use crate::bullet_collection::bullets_json;
use crate::bullet_collection::bullets_to_json;
use crate::asteroid::Asteroid;
use crate::bullet_collection::lemma_ticked_bullets_alive;
use crate::collision::phase1_spec;
use crate::collision::phase2_spec;
use crate::collision::phase3_spec;
use crate::collision::resolve;
use crate::collision::ship_derived;
use crate::collision::ship_from;
use crate::collision::victim_of_tick;
use crate::player_collection::player_ticked;
use crate::player::INPUT_BUFFER_CAP;
use crate::player::Player;
use crate::player_collection::AddPlayerError;
use crate::player_collection::MAX_PLAYERS;
use crate::player_collection::PlayerCollection;
use crate::player_collection::all_bullets;
use crate::player_collection::contains_id;
use crate::player_collection::is_fresh_player;
use crate::player_collection::lemma_all_bullets_wf;
use crate::player_collection::players_json;
use crate::player_collection::players_without;
use crate::player::queue_pushed_all;
use crate::text::commands_of;

/// BIG asteroids the world starts with.
pub const INITIAL_ASTEROIDS: usize = 5;

pub struct GameManager {
    pub players: PlayerCollection,
    pub asteroids: AsteroidCollection,
}

/// The whole snapshot: players, then the union of all projectiles across
/// all players, then the asteroids, field order stable.
pub open spec fn snapshot_json(players: Seq<Player>, g: GameManager) -> Seq<char> {
    "{"@ + players_json(players) + ","@ + bullets_json(all_bullets(players)) + ","@
        + asteroids_json(g.asteroids.asteroids@) + "}"@
}

/// How one tick advances the asteroid field before the resolver runs:
/// every asteroid has drifted one step, and the spawn controller may have
/// appended one BIG asteroid.
pub open spec fn asts_evolved(pre: Seq<Asteroid>, post: Seq<Asteroid>) -> bool {
    let moved = pre.map_values(|a: Asteroid| a.moved());
    ||| post == moved
    ||| {
        &&& post.len() == moved.len() + 1
        &&& post.drop_last() == moved
        &&& post.last().size == AsteroidType::BIG
    }
}

/// What one tick does to the registry: every player first steps as
/// `player_ticked` says (commands drained, physics applied, projectiles
/// swept), giving the mid-tick state `mid`; the asteroid field drifts and
/// may gain one spawn, giving the field `asts` the resolver saw; then
/// exactly the victims of the recorded hits are evicted, and every
/// survivor is its mid-tick ship with at most some projectiles consumed.
pub open spec fn tick_rel(
    pre: Seq<Player>,
    pre_asts: Seq<Asteroid>,
    mid: Seq<Player>,
    asts: Seq<Asteroid>,
    post: Seq<Player>,
) -> bool {
    &&& mid.len() == pre.len()
    &&& forall|i: int| 0 <= i < mid.len() ==> #[trigger] player_ticked(pre[i], mid[i])
    &&& asts_evolved(pre_asts, asts)
    &&& forall|id: u128|
        #[trigger] contains_id(post, id) == (contains_id(mid, id) && !victim_of_tick(
            mid,
            asts,
            id,
        ))
    &&& forall|i: int| 0 <= i < post.len() ==> #[trigger] ship_derived(post, mid, i)
    &&& ({
        let bs = all_bullets(mid);
        let h1s = phase1_spec(mid, bs);
        (h1s.len() == 0 && phase2_spec(mid, asts).len() == 0 && phase3_spec(bs, asts, h1s).len()
            == 0) ==> post == mid
    })
}

impl GameManager {
    pub open spec fn wf(self) -> bool {
        &&& self.players.wf()
        &&& self.asteroids.wf()
    }

    /// A fresh world: no players, and the fixed starting count of BIG
    /// asteroids at random positions.
    pub fn new() -> (g: GameManager)
        ensures
            g.players.players@.len() == 0,
            g.asteroids.asteroids@.len() == INITIAL_ASTEROIDS,
            forall|i: int|
                0 <= i < INITIAL_ASTEROIDS ==> (#[trigger] g.asteroids.asteroids@[i]).size
                    == AsteroidType::BIG,
            g.wf(),
    {
        let players = PlayerCollection::new();
        let mut asteroids = AsteroidCollection::new();
        let mut i: usize = 0;
        while i < INITIAL_ASTEROIDS
            invariant
                0 <= i <= INITIAL_ASTEROIDS,
                asteroids.wf(),
                asteroids.asteroids@.len() == i,
                forall|j: int|
                    0 <= j < i ==> (#[trigger] asteroids.asteroids@[j]).size == AsteroidType::BIG,
            decreases INITIAL_ASTEROIDS - i,
        {
            asteroids.random_spawn();
            proof {
                assert forall|j: int| 0 <= j < i + 1 implies (
                #[trigger] asteroids.asteroids@[j]).size == AsteroidType::BIG by {
                    if j < i {
                        assert(asteroids.asteroids@.drop_last()[j] == asteroids.asteroids@[j]);
                    } else {
                        assert(asteroids.asteroids@.last() == asteroids.asteroids@[j]);
                    }
                }
            }
            i = i + 1;
        }
        GameManager { players, asteroids }
    }

    /// Registers a player for a fresh connection: refused when the registry
    /// is full or the identity is already present.
    pub fn add_player(&mut self, client_id: u128) -> (r: Result<u128, AddPlayerError>)
        requires
            old(self).wf(),
        ensures
            old(self).players.players@.len() >= MAX_PLAYERS ==> r == Result::<
                u128,
                AddPlayerError,
            >::Err(AddPlayerError::Full) && *final(self) == *old(self),
            old(self).players.players@.len() < MAX_PLAYERS && contains_id(
                old(self).players.players@,
                client_id,
            ) ==> {
                &&& r == Result::<u128, AddPlayerError>::Err(AddPlayerError::AlreadyPresent)
                &&& *final(self) == *old(self)
            },
            old(self).players.players@.len() < MAX_PLAYERS && !contains_id(
                old(self).players.players@,
                client_id,
            ) ==> {
                &&& r == Result::<u128, AddPlayerError>::Ok(client_id)
                &&& final(self).players.players@.len() == old(self).players.players@.len() + 1
                &&& final(self).players.players@.drop_last() == old(self).players.players@
                &&& is_fresh_player(final(self).players.players@.last(), client_id)
            },
            final(self).asteroids == old(self).asteroids,
            final(self).wf(),
    {
        self.players.add_player(client_id)
    }

    /// Removes the player with this identity; removing an absent identity
    /// is a no-op, so a disconnect can never error, however often repeated.
    pub fn rm_player(&mut self, client_id: u128) -> (r: bool)
        requires
            old(self).wf(),
        ensures
            r == contains_id(old(self).players.players@, client_id),
            final(self).players.players@ == players_without(
                old(self).players.players@,
                client_id,
            ),
            forall|id: u128|
                #[trigger] contains_id(final(self).players.players@, id) == (contains_id(
                    old(self).players.players@,
                    id,
                ) && id != client_id),
            final(self).asteroids == old(self).asteroids,
            final(self).wf(),
    {
        self.players.rm_player(client_id)
    }

    /// Parses a raw command text and buffers what it encodes on the named
    /// player; an unknown identity or unrecognized text changes nothing.
    pub fn handle_player_command(&mut self, client_id: u128, player_command: &str)
        requires
            old(self).wf(),
        ensures
            !contains_id(old(self).players.players@, client_id) ==> *final(self) == *old(self),
            contains_id(old(self).players.players@, client_id) ==> exists|i: int|
                {
                    &&& 0 <= i < old(self).players.players@.len()
                    &&& (#[trigger] old(self).players.players@[i]).client_id == client_id
                    &&& final(self).players.players@ == old(self).players.players@.update(
                        i,
                        final(self).players.players@[i],
                    )
                    &&& final(self).players.players@[i].input_buffer@ == queue_pushed_all(
                        old(self).players.players@[i].input_buffer@,
                        commands_of(player_command@),
                        INPUT_BUFFER_CAP as int,
                    )
                    &&& final(self).players.players@[i] == (Player {
                        input_buffer: final(self).players.players@[i].input_buffer,
                        ..old(self).players.players@[i]
                    })
                },
            final(self).asteroids == old(self).asteroids,
            final(self).wf(),
    {
        self.players.handle_command(client_id, player_command)
    }

    /// One tick: every player drains its commands, moves and may fire; the
    /// projectile collections are swept; the asteroids drift and the spawn
    /// controller runs; then the collision resolver detects and applies all
    /// hits. The whole step satisfies `tick_rel`; in particular no player
    /// appears out of nowhere, and every surviving player leaves the tick
    /// with an empty command queue.
    pub fn tick(&mut self)
        requires
            old(self).wf(),
        ensures
            final(self).wf(),
            exists|mid: Seq<Player>, asts: Seq<Asteroid>|
                #[trigger] tick_rel(
                    old(self).players.players@,
                    old(self).asteroids.asteroids@,
                    mid,
                    asts,
                    final(self).players.players@,
                ),
            forall|id: u128|
                contains_id(final(self).players.players@, id) ==> contains_id(
                    old(self).players.players@,
                    id,
                ),
            forall|i: int|
                0 <= i < final(self).players.players@.len()
                    ==> (#[trigger] final(self).players.players@[i]).input_buffer@.len() == 0,
            forall|i: int, k: int|
                0 <= i < final(self).players.players@.len() && 0 <= k
                    < final(self).players.players@[i].bullets.bullets@.len() ==> (
                #[trigger] final(self).players.players@[i].bullets.bullets@[k]).ttl > 0,
    {
        let ghost orig = self.players.players@;
        self.players.update();
        let ghost mid = self.players.players@;
        proof {
            assert forall|id: u128|
                contains_id(mid, id) implies #[trigger] contains_id(orig, id) by {
                let k = choose|k: int| 0 <= k < mid.len() && (#[trigger] mid[k]).client_id == id;
                assert(orig[k].client_id == id);
            }
        }
        self.asteroids.update();
        self.asteroids.maybe_spawn();
        let ghost asts = self.asteroids.asteroids@;
        resolve(&mut self.players, &mut self.asteroids);
        proof {
            assert(asts_evolved(old(self).asteroids.asteroids@, asts));
            assert(tick_rel(orig, old(self).asteroids.asteroids@, mid, asts, self.players.players@));
            assert forall|id: u128|
                contains_id(self.players.players@, id) implies #[trigger] contains_id(
                orig,
                id,
            ) by {}
            assert forall|i: int| 0 <= i < self.players.players@.len() implies (
            #[trigger] self.players.players@[i]).input_buffer@.len() == 0 by {
                assert(ship_derived(self.players.players@, mid, i));
                let j = choose|j: int|
                    0 <= j < mid.len() && #[trigger] ship_from(self.players.players@[i], mid[j]);
                assert(crate::player_collection::player_ticked(orig[j], mid[j]));
            }
            assert forall|i: int, k: int|
                0 <= i < self.players.players@.len() && 0 <= k
                    < self.players.players@[i].bullets.bullets@.len() implies (
            #[trigger] self.players.players@[i].bullets.bullets@[k]).ttl > 0 by {
                let post = self.players.players@;
                assert(ship_derived(post, mid, i));
                let j = choose|j: int| 0 <= j < mid.len() && #[trigger] ship_from(post[i], mid[j]);
                assert(mid[j].bullets.bullets@.contains(post[i].bullets.bullets@[k]));
                let l = choose|l: int|
                    0 <= l < mid[j].bullets.bullets@.len() && mid[j].bullets.bullets@[l]
                        == post[i].bullets.bullets@[k];
                assert(crate::player_collection::player_ticked(orig[j], mid[j]));
                let m = orig[j].moved_spec(orig[j].input_buffer@);
                let fires = m.fired && orig[j].shot_counter >= orig[j].shot_cooldown;
                if fires && orig[j].bullets.bullets@.len()
                    < crate::bullet_collection::MAX_BULLETS {
                    let b = choose|b: crate::bullet::Bullet|
                        {
                            &&& mid[j].bullets.bullets@
                                == crate::bullet_collection::bullets_ticked(
                                #[trigger] orig[j].bullets.bullets@.push(b),
                            )
                            &&& b.player_id == orig[j].client_id
                            &&& b.x == m.x
                            &&& b.y == m.y
                            &&& b.angle == m.angle
                            &&& b.ttl == crate::bullet::BULLET_TTL
                            &&& crate::player::speed_from_momentum(b.v as int, m.vx, m.vy)
                        };
                    lemma_ticked_bullets_alive(orig[j].bullets.bullets@.push(b));
                } else {
                    lemma_ticked_bullets_alive(orig[j].bullets.bullets@);
                }
            }
        }
    }

    /// Serializes the whole world: players, the union of all projectiles,
    /// and the asteroids, in one aggregate object. Pure: the world is not
    /// touched.
    pub fn get_game_state(&self) -> (r: String)
        requires
            self.wf(),
        ensures
            r@ == snapshot_json(self.players.players@, *self),
    {
        let mut s = String::new();
        s.append("{");
        let pj = self.players.to_json();
        s.append(pj.as_str());
        s.append(",");
        let bullets = self.players.get_all_bullets();
        proof {
            lemma_all_bullets_wf(self.players.players@);
        }
        let bj = bullets_to_json(&bullets);
        s.append(bj.as_str());
        s.append(",");
        let aj = self.asteroids.to_json();
        s.append(aj.as_str());
        s.append("}");
        proof {
            assert(s@ =~= snapshot_json(self.players.players@, *self));
        }
        s
    }
}

} // verus!
