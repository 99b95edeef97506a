//! The player registry: every connected player's ship, keyed by its
//! connection identity, capacity-bounded, with bulk per-tick update.

use vstd::prelude::*;

verus! {

use crate::bullet::Bullet;
use crate::bullet_collection::MAX_BULLETS;
use crate::bullet_collection::bullets_ticked;
use crate::bullet_collection::bullets_without;
use crate::bullet::BULLET_TTL;
use crate::player::CMD;
use crate::player::INPUT_BUFFER_CAP;
use crate::player::Player;
use crate::player::queue_pushed_all;
use crate::text::commands_of;
use crate::text::parse_commands;
use crate::asteroid::Asteroid;
use crate::asteroid_collection::AsteroidCollection;

/// Most players the registry accepts.
pub const MAX_PLAYERS: usize = 255;

/// Why a join was refused.
#[derive(Clone, Copy, PartialEq, Eq, Structural, Debug)]
pub enum AddPlayerError {
    /// The registry is at capacity.
    Full,
    /// The identity is already registered.
    AlreadyPresent,
}

/// Some player in `s` carries this identity.
pub open spec fn contains_id(s: Seq<Player>, id: u128) -> bool {
    exists|i: int| 0 <= i < s.len() && (#[trigger] s[i]).client_id == id
}

/// The players left after removing every one that carries `id`.
pub open spec fn players_without(s: Seq<Player>, id: u128) -> Seq<Player> {
    s.filter(|p: Player| p.client_id != id)
}

/// All projectiles across all players, owner order preserved.
pub open spec fn all_bullets(s: Seq<Player>) -> Seq<Bullet>
    decreases s.len(),
{
    if s.len() == 0 {
        Seq::empty()
    } else {
        all_bullets(s.drop_last()) + s.last().bullets.bullets@
    }
}

/// The player list items, comma-separated, in registry order.
pub open spec fn player_items(s: Seq<Player>) -> Seq<char>
    decreases s.len(),
{
    if s.len() == 0 {
        Seq::empty()
    } else if s.len() == 1 {
        s[0].json()
    } else {
        player_items(s.drop_last()) + ","@ + s.last().json()
    }
}

/// The snapshot text of a whole player list.
pub open spec fn players_json(s: Seq<Player>) -> Seq<char> {
    "\"Players\":["@ + player_items(s) + "]"@
}

/// Every projectile of a well-formed registry is itself well-formed.
pub proof fn lemma_all_bullets_wf(s: Seq<Player>)
    requires
        forall|i: int| 0 <= i < s.len() ==> (#[trigger] s[i]).wf(),
    ensures
        forall|k: int| 0 <= k < all_bullets(s).len() ==> (#[trigger] all_bullets(s)[k]).wf(),
    decreases s.len(),
{
    if s.len() > 0 {
        lemma_all_bullets_wf(s.drop_last());
        assert(s.last().wf());
        assert forall|k: int| 0 <= k < all_bullets(s).len() implies (
        #[trigger] all_bullets(s)[k]).wf() by {
            let pre = all_bullets(s.drop_last());
            if k < pre.len() {
                assert(all_bullets(s)[k] == pre[k]);
            } else {
                assert(all_bullets(s)[k] == s.last().bullets.bullets@[k - pre.len()]);
            }
        }
    }
}

/// What removal by identity does to membership: exactly the players with
/// that identity are gone, everyone else is kept, and every kept player is
/// one of the originals.
pub proof fn lemma_without_ids(s: Seq<Player>, id: u128)
    ensures
        forall|pid: u128|
            #[trigger] contains_id(players_without(s, id), pid) == (contains_id(s, pid) && pid
                != id),
        forall|i: int|
            0 <= i < players_without(s, id).len() ==> exists|j: int|
                0 <= j < s.len() && #[trigger] players_without(s, id)[i] == s[j],
    decreases s.len(),
{
    reveal(Seq::filter);
    let pred = |p: Player| p.client_id != id;
    let f = players_without(s, id);
    if s.len() == 0 {
        assert(forall|pid: u128| !contains_id(s, pid));
        assert(forall|pid: u128| !contains_id(f, pid));
    } else {
        let d = s.drop_last();
        lemma_without_ids(d, id);
        let fd = players_without(d, id);
        assert forall|pid: u128| #[trigger]
            contains_id(f, pid) == (contains_id(s, pid) && pid != id) by {
            if contains_id(f, pid) {
                let k = choose|k: int| 0 <= k < f.len() && (#[trigger] f[k]).client_id == pid;
                if pred(s.last()) && k == f.len() - 1 {
                    assert(s[s.len() - 1].client_id == pid);
                } else {
                    assert(fd[k] == f[k]);
                    assert(contains_id(fd, pid));
                    let j = choose|j: int| 0 <= j < d.len() && (#[trigger] d[j]).client_id == pid;
                    assert(s[j].client_id == pid);
                }
            }
            if contains_id(s, pid) && pid != id {
                let j = choose|j: int| 0 <= j < s.len() && (#[trigger] s[j]).client_id == pid;
                if j == s.len() - 1 {
                    assert(f[f.len() - 1].client_id == pid);
                } else {
                    assert(d[j].client_id == pid);
                    assert(contains_id(fd, pid));
                    let k = choose|k: int| 0 <= k < fd.len() && (#[trigger] fd[k]).client_id == pid;
                    assert(f[k].client_id == pid);
                }
            }
        }
        assert forall|i: int| 0 <= i < f.len() implies exists|j: int|
            0 <= j < s.len() && #[trigger] f[i] == s[j] by {
            if pred(s.last()) && i == f.len() - 1 {
                assert(f[i] == s[s.len() - 1]);
            } else {
                assert(f[i] == fd[i]);
                let j = choose|j: int| 0 <= j < d.len() && #[trigger] fd[i] == d[j];
                assert(f[i] == s[j]);
            }
        }
    }
}

/// A player exactly as `Player::new` creates it for `id`.
pub open spec fn is_fresh_player(p: Player, id: u128) -> bool {
    &&& p.client_id == id
    &&& p.x == crate::player::PLAYER_START_X
    &&& p.y == crate::player::PLAYER_START_Y
    &&& p.angle == 0
    &&& p.vx == 0
    &&& p.vy == 0
    &&& p.input_buffer@ == Seq::<CMD>::empty()
    &&& p.is_destroyed == false
    &&& p.shot_cooldown == crate::player::SHOT_COOLDOWN
    &&& p.shot_counter == crate::player::SHOT_COOLDOWN
    &&& p.bullets.bullets@ == Seq::<Bullet>::empty()
}

/// How one tick relates a player's post-state to its pre-state: commands
/// drained and physics applied as `Player::update` promises, then the
/// player's projectile collection swept, so a projectile fired this tick
/// also moves this tick.
pub open spec fn player_ticked(pre: Player, post: Player) -> bool {
    let m = pre.moved_spec(pre.input_buffer@);
    let fires = m.fired && pre.shot_counter >= pre.shot_cooldown;
    &&& post.x == m.x
    &&& post.y == m.y
    &&& post.angle == m.angle
    &&& post.input_buffer@.len() == 0
    &&& post.client_id == pre.client_id
    &&& post.is_destroyed == pre.is_destroyed
    &&& post.shot_cooldown == pre.shot_cooldown
    &&& post.shot_counter == if fires {
        1u32
    } else if pre.shot_counter < u32::MAX {
        (pre.shot_counter + 1) as u32
    } else {
        u32::MAX
    }
    &&& if fires && pre.bullets.bullets@.len() < MAX_BULLETS {
        exists|b: Bullet|
            {
                &&& post.bullets.bullets@ == bullets_ticked(#[trigger] pre.bullets.bullets@.push(b))
                &&& b.player_id == pre.client_id
                &&& b.x == m.x
                &&& b.y == m.y
                &&& b.angle == m.angle
                &&& b.ttl == BULLET_TTL
                &&& crate::player::speed_from_momentum(b.v as int, m.vx, m.vy)
            }
    } else {
        post.bullets.bullets@ == bullets_ticked(pre.bullets.bullets@)
    }
}

pub struct PlayerCollection {
    pub players: Vec<Player>,
    pub max_players: usize,
}

impl PlayerCollection {
    /// Capacity respected, every ship sane, and identities unique: the
    /// registry behaves as a map keyed by connection identity.
    pub open spec fn wf(self) -> bool {
        &&& self.max_players == MAX_PLAYERS
        &&& self.players@.len() <= self.max_players
        &&& forall|i: int| 0 <= i < self.players@.len() ==> (#[trigger] self.players@[i]).wf()
        &&& forall|i: int, j: int|
            0 <= i < j < self.players@.len() ==> (#[trigger] self.players@[i]).client_id != (
            #[trigger] self.players@[j]).client_id
    }

    pub fn new() -> (c: PlayerCollection)
        ensures
            c.players@ == Seq::<Player>::empty(),
            c.max_players == MAX_PLAYERS,
            c.wf(),
    {
        PlayerCollection { players: Vec::new(), max_players: MAX_PLAYERS }
    }

    /// The registry is at capacity.
    pub fn is_full(&self) -> (r: bool)
        requires
            self.wf(),
        ensures
            r == (self.players@.len() >= MAX_PLAYERS),
    {
        self.players.len() >= self.max_players
    }

    pub fn get_players(&self) -> (r: &Vec<Player>)
        ensures
            r@ == self.players@,
    {
        &self.players
    }

    /// Where `id` sits in the registry, if anywhere.
    fn index_of(&self, id: u128) -> (r: Option<usize>)
        ensures
            match r {
                Some(i) => i < self.players@.len() && self.players@[i as int].client_id == id,
                None => !contains_id(self.players@, id),
            },
    {
        let n = self.players.len();
        let mut i: usize = 0;
        while i < n
            invariant
                n == self.players@.len(),
                0 <= i <= n,
                forall|k: int| 0 <= k < i ==> (#[trigger] self.players@[k]).client_id != id,
            decreases n - i,
        {
            if self.players[i].get_id() == id {
                return Some(i);
            }
            i = i + 1;
        }
        None
    }

    /// The player with this identity, if registered.
    pub fn get_player(&self, player_id: u128) -> (r: Option<&Player>)
        ensures
            r.is_some() == contains_id(self.players@, player_id),
            match r {
                Some(p) => p.client_id == player_id && self.players@.contains(*p),
                None => true,
            },
    {
        match self.index_of(player_id) {
            Some(i) => Some(&self.players[i]),
            None => None,
        }
    }

    /// Every projectile in flight, across all players, owner order kept.
    pub fn get_all_bullets(&self) -> (r: Vec<Bullet>)
        ensures
            r@ == all_bullets(self.players@),
    {
        let mut out: Vec<Bullet> = Vec::new();
        let n = self.players.len();
        let mut i: usize = 0;
        proof {
            assert(self.players@.take(0int) =~= Seq::<Player>::empty());
        }
        while i < n
            invariant
                n == self.players@.len(),
                0 <= i <= n,
                out@ == all_bullets(self.players@.take(i as int)),
            decreases n - i,
        {
            let bs = &self.players[i].bullets.bullets;
            let m = bs.len();
            let mut j: usize = 0;
            while j < m
                invariant
                    n == self.players@.len(),
                    0 <= i < n,
                    m == self.players@[i as int].bullets.bullets@.len(),
                    bs@ == self.players@[i as int].bullets.bullets@,
                    0 <= j <= m,
                    out@ == all_bullets(self.players@.take(i as int)) + bs@.take(j as int),
                decreases m - j,
            {
                out.push(bs[j]);
                proof {
                    assert(bs@.take(j + 1) =~= bs@.take(j as int).push(bs@[j as int]));
                }
                j = j + 1;
            }
            proof {
                assert(self.players@.take(i + 1).drop_last() =~= self.players@.take(i as int));
                assert(self.players@.take(i + 1).last() == self.players@[i as int]);
                assert(bs@.take(m as int) =~= bs@);
            }
            i = i + 1;
        }
        proof {
            assert(self.players@.take(n as int) =~= self.players@);
        }
        out
    }

    /// Registers a fresh player for `client_id`: refused when the registry
    /// is full or the identity is already present, and then nothing
    /// changes; otherwise the new ship is appended at the fixed spawn
    /// point.
    pub fn add_player(&mut self, client_id: u128) -> (r: Result<u128, AddPlayerError>)
        requires
            old(self).wf(),
        ensures
            old(self).players@.len() >= MAX_PLAYERS ==> r == Result::<
                u128,
                AddPlayerError,
            >::Err(AddPlayerError::Full) && *final(self) == *old(self),
            old(self).players@.len() < MAX_PLAYERS && contains_id(old(self).players@, client_id)
                ==> r == Result::<u128, AddPlayerError>::Err(AddPlayerError::AlreadyPresent)
                && *final(self) == *old(self),
            old(self).players@.len() < MAX_PLAYERS && !contains_id(old(self).players@, client_id)
                ==> {
                &&& r == Result::<u128, AddPlayerError>::Ok(client_id)
                &&& final(self).players@.len() == old(self).players@.len() + 1
                &&& final(self).players@.drop_last() == old(self).players@
                &&& is_fresh_player(final(self).players@.last(), client_id)
            },
            final(self).wf(),
    {
        if self.players.len() >= self.max_players {
            return Err(AddPlayerError::Full);
        }
        if self.index_of(client_id).is_some() {
            return Err(AddPlayerError::AlreadyPresent);
        }
        let player = Player::new(client_id);
        self.players.push(player);
        proof {
            assert(final(self).players@.drop_last() =~= old(self).players@);
        }
        Ok(client_id)
    }

    /// Removes the player with this identity, reporting whether one was
    /// there; removing an absent identity is a no-op, so the operation is
    /// idempotent.
    pub fn rm_player(&mut self, client_id: u128) -> (r: bool)
        requires
            old(self).wf(),
        ensures
            final(self).players@ == players_without(old(self).players@, client_id),
            r == contains_id(old(self).players@, client_id),
            forall|id: u128|
                #[trigger] contains_id(final(self).players@, id) == (contains_id(
                    old(self).players@,
                    id,
                ) && id != client_id),
            forall|i: int|
                0 <= i < final(self).players@.len() ==> exists|j: int|
                    0 <= j < old(self).players@.len() && #[trigger] final(self).players@[i] == old(
                        self,
                    ).players@[j],
            final(self).wf(),
            final(self).max_players == old(self).max_players,
    {
        let ghost orig = self.players@;
        let ghost pred = |p: Player| p.client_id != client_id;
        let mut kept: Vec<Player> = Vec::new();
        let mut found = false;
        let n = self.players.len();
        let mut i: usize = 0;
        proof {
            assert(orig.take(0int) =~= Seq::<Player>::empty());
            assert(orig.skip(0int) =~= orig);
            reveal(Seq::filter);
        }
        while i < n
            invariant
                n == orig.len(),
                0 <= i <= n,
                self.players@ == orig.skip(i as int),
                old(self).wf(),
                self.max_players == old(self).max_players,
                kept@ == orig.take(i as int).filter(pred),
                kept@.len() <= i,
                orig == old(self).players@,
                forall|k: int|
                    0 <= k < kept@.len() ==> exists|j: int|
                        0 <= j < i && #[trigger] kept@[k] == orig[j],
                forall|k: int| 0 <= k < kept@.len() ==> (#[trigger] kept@[k]).wf(),
                forall|k1: int, k2: int|
                    0 <= k1 < k2 < kept@.len() ==> (#[trigger] kept@[k1]).client_id != (
                    #[trigger] kept@[k2]).client_id,
                found == exists|j: int| 0 <= j < i && (#[trigger] orig[j]).client_id == client_id,
                pred == (|p: Player| p.client_id != client_id),
            decreases n - i,
        {
            let ghost prev = kept@;
            proof {
                assert(orig.take(i + 1).drop_last() =~= orig.take(i as int));
                assert(orig.take(i + 1).last() == orig[i as int]);
                assert(orig.skip(i as int)[0] == orig[i as int]);
                assert(orig.skip(i as int).remove(0) =~= orig.skip(i + 1));
                reveal(Seq::filter);
            }
            let p = self.players.remove(0);
            if p.get_id() != client_id {
                kept.push(p);
                proof {
                    assert forall|k1: int, k2: int|
                        0 <= k1 < k2 < kept@.len() implies (#[trigger] kept@[k1]).client_id != (
                    #[trigger] kept@[k2]).client_id by {
                        if k2 == kept@.len() - 1 {
                            let j = choose|j: int|
                                0 <= j < i && #[trigger] prev[k1] == orig[j];
                            assert(orig[j].client_id != orig[i as int].client_id);
                        }
                    }
                }
            } else {
                found = true;
            }
            i = i + 1;
        }
        proof {
            assert(orig.take(n as int) =~= orig);
        }
        self.players = kept;
        proof {
            assert(self.players@ == players_without(orig, client_id));
            lemma_without_ids(orig, client_id);
        }
        found
    }

    /// Removes the projectile with `bullet_id` from the collection of the
    /// player with `owner_id`; nothing changes when the owner is absent.
    /// Only that player's projectile collection is touched: every
    /// projectile of the owner carrying `bullet_id` is gone, the rest stay
    /// in order, and every other ship is exactly as it was.
    pub fn rm_bullet_of(&mut self, owner_id: u128, bullet_id: u128)
        requires
            old(self).wf(),
        ensures
            forall|id: u128|
                #[trigger] contains_id(final(self).players@, id) == contains_id(
                    old(self).players@,
                    id,
                ),
            final(self).players@.len() == old(self).players@.len(),
            forall|i: int|
                0 <= i < final(self).players@.len() ==> #[trigger] final(self).players@[i]
                    == (Player {
                    bullets: final(self).players@[i].bullets,
                    ..old(self).players@[i]
                }),
            forall|i: int|
                0 <= i < final(self).players@.len() && old(self).players@[i].client_id != owner_id
                    ==> #[trigger] final(self).players@[i] == old(self).players@[i],
            forall|i: int|
                0 <= i < final(self).players@.len() && old(self).players@[i].client_id == owner_id
                    ==> (#[trigger] final(self).players@[i]).bullets.bullets@ == bullets_without(
                    old(self).players@[i].bullets.bullets@,
                    bullet_id,
                ),
            final(self).wf(),
            final(self).max_players == old(self).max_players,
    {
        let idx = self.index_of(owner_id);
        match idx {
            None => {},
            Some(i) => {
                let mut p = self.players.remove(i);
                p.bullets.rm_bullet(bullet_id);
                self.players.insert(i, p);
                proof {
                    let now = self.players@;
                    let orig = old(self).players@;
                    assert(now =~= orig.update(i as int, now[i as int]));
                    assert forall|id: u128| #[trigger]
                        contains_id(now, id) == contains_id(orig, id) by {
                        if contains_id(now, id) {
                            let k = choose|k: int|
                                0 <= k < now.len() && (#[trigger] now[k]).client_id == id;
                            assert(orig[k].client_id == id);
                        }
                        if contains_id(orig, id) {
                            let k = choose|k: int|
                                0 <= k < orig.len() && (#[trigger] orig[k]).client_id == id;
                            assert(now[k].client_id == id);
                        }
                    }
                }
            },
        }
    }

    /// One tick of every registered player, in registry order: each drains
    /// its commands, moves, possibly fires, and its projectile collection
    /// is swept in the same pass.
    pub fn update(&mut self)
        requires
            old(self).wf(),
        ensures
            final(self).players@.len() == old(self).players@.len(),
            forall|i: int|
                0 <= i < old(self).players@.len() ==> player_ticked(
                    #[trigger] old(self).players@[i],
                    #[trigger] final(self).players@[i],
                ),
            final(self).wf(),
            final(self).max_players == old(self).max_players,
    {
        let ghost orig = self.players@;
        let mut out: Vec<Player> = Vec::new();
        let n = self.players.len();
        let mut i: usize = 0;
        proof {
            assert(orig.skip(0int) =~= orig);
        }
        while i < n
            invariant
                n == orig.len(),
                0 <= i <= n,
                self.players@ == orig.skip(i as int),
                self.max_players == old(self).max_players,
                old(self).wf(),
                orig == old(self).players@,
                forall|j: int| 0 <= j < n ==> (#[trigger] orig[j]).wf(),
                forall|j: int, k: int|
                    0 <= j < k < n ==> (#[trigger] orig[j]).client_id != (
                    #[trigger] orig[k]).client_id,
                out@.len() == i,
                forall|j: int|
                    0 <= j < i ==> player_ticked(#[trigger] orig[j], #[trigger] out@[j]),
                forall|j: int| 0 <= j < i ==> (#[trigger] out@[j]).wf(),
                forall|j: int| 0 <= j < i ==> (#[trigger] out@[j]).client_id == orig[j].client_id,
            decreases n - i,
        {
            let mut p = self.players.remove(0);
            proof {
                assert(orig.skip(i as int).remove(0) =~= orig.skip(i + 1));
                assert(orig.skip(i as int)[0] == orig[i as int]);
            }
            let ghost pre = p;
            p.update();
            let ghost midb = p.bullets.bullets@;
            p.bullets.update();
            proof {
                let m = pre.moved_spec(pre.input_buffer@);
                let fires = m.fired && pre.shot_counter >= pre.shot_cooldown;
                if fires && pre.bullets.bullets@.len() < MAX_BULLETS {
                    assert(midb =~= pre.bullets.bullets@.push(midb.last()));
                    let b = midb.last();
                    assert(p.bullets.bullets@ == bullets_ticked(pre.bullets.bullets@.push(b)));
                    assert(player_ticked(pre, p));
                }
            }
            out.push(p);
            i = i + 1;
        }
        self.players = out;
    }

    /// Resolves projectile-versus-player hits within the registry alone,
    /// as in a world without asteroids: every ship struck by an enemy
    /// projectile is evicted and the consumed projectiles leave their
    /// owners' collections. A projectile never strikes its own owner: when
    /// every ship overlaps only its own projectiles, nothing changes at
    /// all.
    pub fn collision(&mut self)
        requires
            old(self).wf(),
        ensures
            final(self).wf(),
            forall|id: u128|
                #[trigger] contains_id(final(self).players@, id) == (contains_id(
                    old(self).players@,
                    id,
                ) && !crate::collision::victim_of_tick(
                    old(self).players@,
                    Seq::<Asteroid>::empty(),
                    id,
                )),
            forall|i: int|
                0 <= i < final(self).players@.len() ==> #[trigger] crate::collision::ship_derived(
                    final(self).players@,
                    old(self).players@,
                    i,
                ),
            (forall|i: int, j: int|
                0 <= i < old(self).players@.len() && 0 <= j < all_bullets(
                    old(self).players@,
                ).len() ==> !crate::collision::bullet_hits_player(
                    #[trigger] old(self).players@[i],
                    #[trigger] all_bullets(old(self).players@)[j],
                )) ==> *final(self) == *old(self),
    {
        let ghost ps = self.players@;
        let mut no_asteroids = AsteroidCollection::new();
        crate::collision::resolve(self, &mut no_asteroids);
        proof {
            if forall|i: int, j: int|
                0 <= i < ps.len() && 0 <= j < all_bullets(ps).len()
                    ==> !crate::collision::bullet_hits_player(
                    #[trigger] ps[i],
                    #[trigger] all_bullets(ps)[j],
                ) {
                crate::collision::lemma_phase1_no_hits(ps, all_bullets(ps));
                crate::collision::lemma_phase2_no_asteroids(ps);
                crate::collision::lemma_phase3_no_asteroids(
                    all_bullets(ps),
                    crate::collision::phase1_spec(ps, all_bullets(ps)),
                );
            }
        }
    }

    /// Serializes the registry for the snapshot; the order is the
    /// registry's own and is stable within one encode.
    pub fn to_json(&self) -> (r: String)
        requires
            self.wf(),
        ensures
            r@ == players_json(self.players@),
    {
        let mut s = String::new();
        s.append("\"Players\":[");
        let n = self.players.len();
        let mut i: usize = 0;
        proof {
            assert(self.players@.take(0int) =~= Seq::<Player>::empty());
        }
        while i < n
            invariant
                n == self.players@.len(),
                0 <= i <= n,
                self.wf(),
                s@ == "\"Players\":["@ + player_items(self.players@.take(i as int)),
            decreases n - i,
        {
            if i > 0 {
                s.append(",");
            }
            let item = self.players[i].to_json();
            s.append(item.as_str());
            proof {
                let pre = self.players@.take(i as int);
                let ext = self.players@.take(i + 1);
                assert(ext.drop_last() =~= pre);
                assert(ext.last() == self.players@[i as int]);
                assert(s@ =~= "\"Players\":["@ + player_items(ext));
            }
            i = i + 1;
        }
        proof {
            assert(self.players@.take(n as int) =~= self.players@);
        }
        s.append("]");
        proof {
            assert(s@ =~= players_json(self.players@));
        }
        s
    }

    /// Parses a raw text and buffers the commands it encodes on the player
    /// with this identity, in the fixed test order; an unknown identity or
    /// an unrecognized text changes nothing.
    pub fn handle_command(&mut self, client_id: u128, player_command: &str)
        requires
            old(self).wf(),
        ensures
            !contains_id(old(self).players@, client_id) ==> *final(self) == *old(self),
            contains_id(old(self).players@, client_id) ==> exists|i: int|
                {
                    &&& 0 <= i < old(self).players@.len()
                    &&& (#[trigger] old(self).players@[i]).client_id == client_id
                    &&& final(self).players@ == old(self).players@.update(
                        i,
                        final(self).players@[i],
                    )
                    &&& final(self).players@[i].input_buffer@ == queue_pushed_all(
                        old(self).players@[i].input_buffer@,
                        commands_of(player_command@),
                        INPUT_BUFFER_CAP as int,
                    )
                    &&& final(self).players@[i] == (Player {
                        input_buffer: final(self).players@[i].input_buffer,
                        ..old(self).players@[i]
                    })
                },
            final(self).wf(),
    {
        let idx = self.index_of(client_id);
        match idx {
            None => {},
            Some(i) => {
                let cmds = parse_commands(player_command);
                let mut p = self.players.remove(i);
                p.push_commands(&cmds);
                self.players.insert(i, p);
                proof {
                    assert(final(self).players@ =~= old(self).players@.update(
                        i as int,
                        final(self).players@[i as int],
                    ));
                }
            },
        }
    }
}

/// Removing the same identity twice removes once and never errors: the
/// second removal finds nothing and leaves the registry exactly as the
/// first left it.
pub proof fn lemma_rm_player_idempotent(s: Seq<Player>, id: u128)
    ensures
        players_without(players_without(s, id), id) == players_without(s, id),
        !contains_id(players_without(s, id), id),
    decreases s.len(),
{
    reveal(Seq::filter);
    if s.len() > 0 {
        lemma_rm_player_idempotent(s.drop_last(), id);
        let pred = |p: Player| p.client_id != id;
        if pred(s.last()) {
            assert(players_without(s, id) == players_without(s.drop_last(), id).push(s.last()));
            assert(players_without(s, id).drop_last() =~= players_without(s.drop_last(), id));
            if contains_id(players_without(s, id), id) {
                let k = choose|k: int|
                    0 <= k < players_without(s, id).len() && (#[trigger] players_without(
                        s,
                        id,
                    )[k]).client_id == id;
                if k < players_without(s.drop_last(), id).len() {
                    assert(contains_id(players_without(s.drop_last(), id), id));
                }
            }
            assert(players_without(players_without(s, id), id) =~= players_without(s, id));
        } else {
            assert(players_without(s, id) == players_without(s.drop_last(), id));
        }
    }
}

} // verus!
