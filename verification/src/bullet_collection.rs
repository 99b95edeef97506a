//! A player's own projectile collection: capacity-bounded, purged of
//! expired projectiles on every sweep.

use vstd::prelude::*;

verus! {

use crate::bullet::Bullet;

/// Most projectiles one player may have in flight.
pub const MAX_BULLETS: usize = 255;

pub struct BulletCollection {
    pub bullets: Vec<Bullet>,
    pub max_bullets: usize,
}

/// The projectiles that survive a sweep: everyone moves one tick, then the
/// expired ones are purged.
pub open spec fn bullets_ticked(s: Seq<Bullet>) -> Seq<Bullet> {
    s.map_values(|b: Bullet| b.moved()).filter(|b: Bullet| b.ttl > 0)
}

/// The projectile list items, comma-separated, in collection order.
pub open spec fn bullet_items(s: Seq<Bullet>) -> Seq<char>
    decreases s.len(),
{
    if s.len() == 0 {
        Seq::empty()
    } else if s.len() == 1 {
        s[0].json()
    } else {
        bullet_items(s.drop_last()) + ","@ + s.last().json()
    }
}

/// The snapshot text of a whole projectile list.
pub open spec fn bullets_json(s: Seq<Bullet>) -> Seq<char> {
    "\"Bullets\":["@ + bullet_items(s) + "]"@
}

/// Serializes a projectile list for the snapshot; the order is the list's
/// own and is stable within one encode.
pub fn bullets_to_json(bullets: &Vec<Bullet>) -> (r: String)
    requires
        forall|i: int| 0 <= i < bullets@.len() ==> (#[trigger] bullets@[i]).wf(),
    ensures
        r@ == bullets_json(bullets@),
{
    let mut s = String::new();
    s.append("\"Bullets\":[");
    let n = bullets.len();
    let mut i: usize = 0;
    proof {
        assert(bullets@.take(0int) =~= Seq::<Bullet>::empty());
    }
    while i < n
        invariant
            n == bullets@.len(),
            0 <= i <= n,
            forall|j: int| 0 <= j < n ==> (#[trigger] bullets@[j]).wf(),
            s@ == "\"Bullets\":["@ + bullet_items(bullets@.take(i as int)),
        decreases n - i,
    {
        if i > 0 {
            s.append(",");
        }
        let item = bullets[i].to_json();
        s.append(item.as_str());
        proof {
            let pre = bullets@.take(i as int);
            let ext = bullets@.take(i + 1);
            assert(ext.drop_last() =~= pre);
            assert(ext.last() == bullets@[i as int]);
            assert(s@ =~= "\"Bullets\":["@ + bullet_items(ext));
        }
        i = i + 1;
    }
    proof {
        assert(bullets@.take(n as int) =~= bullets@);
    }
    s.append("]");
    proof {
        assert(s@ =~= bullets_json(bullets@));
    }
    s
}

/// The projectiles left after removing every one that carries `id`.
pub open spec fn bullets_without(s: Seq<Bullet>, id: u128) -> Seq<Bullet> {
    s.filter(|b: Bullet| b.id != id)
}

/// Removal keeps only projectiles that were already there.
pub proof fn lemma_bullets_without_elems(s: Seq<Bullet>, id: u128)
    ensures
        forall|k: int|
            0 <= k < bullets_without(s, id).len() ==> s.contains(
                #[trigger] bullets_without(s, id)[k],
            ),
    decreases s.len(),
{
    reveal(Seq::filter);
    if s.len() > 0 {
        let d = s.drop_last();
        lemma_bullets_without_elems(d, id);
        let f = bullets_without(s, id);
        let fd = bullets_without(d, id);
        assert forall|k: int| 0 <= k < f.len() implies s.contains(#[trigger] f[k]) by {
            if (s.last().id != id) && k == f.len() - 1 {
                assert(f[k] == s[s.len() - 1]);
            } else {
                assert(f[k] == fd[k]);
                assert(d.contains(fd[k]));
                let j = choose|j: int| 0 <= j < d.len() && d[j] == fd[k];
                assert(s[j] == f[k]);
            }
        }
    }
}

/// A sweep leaves no expired projectile behind: everything that survives
/// the purge has time to live.
pub proof fn lemma_ticked_bullets_alive(s: Seq<Bullet>)
    ensures
        forall|k: int|
            0 <= k < bullets_ticked(s).len() ==> (#[trigger] bullets_ticked(s)[k]).ttl > 0,
{
    let m = s.map_values(|b: Bullet| b.moved());
    let alive = |b: Bullet| b.ttl > 0;
    assert forall|k: int| 0 <= k < bullets_ticked(s).len() implies (#[trigger] bullets_ticked(
        s,
    )[k]).ttl > 0 by {
        m.lemma_filter_pred(alive, k);
    }
}

impl BulletCollection {
    /// Capacity bound and per-projectile sanity.
    pub open spec fn wf(self) -> bool {
        &&& self.max_bullets == MAX_BULLETS
        &&& self.bullets@.len() <= self.max_bullets
        &&& forall|i: int| 0 <= i < self.bullets@.len() ==> (#[trigger] self.bullets@[i]).wf()
    }

    pub fn new() -> (c: BulletCollection)
        ensures
            c.bullets@ == Seq::<Bullet>::empty(),
            c.max_bullets == MAX_BULLETS,
            c.wf(),
    {
        BulletCollection { bullets: Vec::new(), max_bullets: MAX_BULLETS }
    }

    /// Appends a projectile unless the collection is full; a full collection
    /// refuses and stays unchanged.
    pub fn add_bullet(&mut self, bullet: Bullet) -> (r: bool)
        requires
            old(self).wf(),
            bullet.wf(),
        ensures
            r == (old(self).bullets@.len() < MAX_BULLETS),
            r ==> final(self).bullets@ == old(self).bullets@.push(bullet),
            !r ==> *final(self) == *old(self),
            final(self).wf(),
            final(self).max_bullets == old(self).max_bullets,
    {
        if self.bullets.len() >= self.max_bullets {
            return false;
        }
        self.bullets.push(bullet);
        true
    }

    /// Removes every projectile carrying `id`; reports whether any was
    /// there. Removing an absent identity changes nothing.
    pub fn rm_bullet(&mut self, bullet_id: u128) -> (r: bool)
        requires
            old(self).wf(),
        ensures
            final(self).bullets@ == bullets_without(old(self).bullets@, bullet_id),
            r == exists|i: int|
                0 <= i < old(self).bullets@.len() && (#[trigger] old(
                    self,
                ).bullets@[i]).id == bullet_id,
            final(self).wf(),
            final(self).max_bullets == old(self).max_bullets,
    {
        let ghost orig = self.bullets@;
        let ghost pred = |b: Bullet| b.id != bullet_id;
        let mut kept: Vec<Bullet> = Vec::new();
        let mut found = false;
        let n = self.bullets.len();
        let mut i: usize = 0;
        proof {
            assert(orig.take(0int) =~= Seq::<Bullet>::empty());
            reveal(Seq::filter);
        }
        while i < n
            invariant
                n == orig.len(),
                0 <= i <= n,
                self.bullets@ == orig,
                kept@ == orig.take(i as int).filter(pred),
                forall|j: int| 0 <= j < n ==> (#[trigger] orig[j]).wf(),
                forall|j: int| 0 <= j < kept@.len() ==> (#[trigger] kept@[j]).wf(),
                kept@.len() <= i,
                found == exists|j: int| 0 <= j < i && (#[trigger] orig[j]).id == bullet_id,
                pred == (|b: Bullet| b.id != bullet_id),
            decreases n - i,
        {
            let b = self.bullets[i];
            proof {
                assert(orig.take(i + 1).drop_last() =~= orig.take(i as int));
                assert(orig.take(i + 1).last() == orig[i as int]);
                reveal(Seq::filter);
            }
            if b.id != bullet_id {
                kept.push(b);
            } else {
                found = true;
            }
            i = i + 1;
        }
        proof {
            assert(orig.take(n as int) =~= orig);
        }
        self.bullets = kept;
        found
    }

    /// Serializes this player's projectiles for the snapshot.
    pub fn to_json(&self) -> (r: String)
        requires
            self.wf(),
        ensures
            r@ == bullets_json(self.bullets@),
    {
        bullets_to_json(&self.bullets)
    }

    /// One sweep: every projectile moves one tick, then the expired ones are
    /// purged in the same pass.
    pub fn update(&mut self)
        requires
            old(self).wf(),
        ensures
            final(self).bullets@ == bullets_ticked(old(self).bullets@),
            final(self).wf(),
            final(self).max_bullets == old(self).max_bullets,
    {
        let ghost orig = self.bullets@;
        let ghost alive = |b: Bullet| b.ttl > 0;
        let mut kept: Vec<Bullet> = Vec::new();
        let n = self.bullets.len();
        let mut i: usize = 0;
        proof {
            assert(orig.take(0int).map_values(|b: Bullet| b.moved()) =~= Seq::<Bullet>::empty());
            reveal(Seq::filter);
        }
        while i < n
            invariant
                n == orig.len(),
                0 <= i <= n,
                self.bullets@ == orig,
                forall|j: int| 0 <= j < n ==> (#[trigger] orig[j]).wf(),
                kept@ == orig.take(i as int).map_values(|b: Bullet| b.moved()).filter(alive),
                forall|j: int| 0 <= j < kept@.len() ==> (#[trigger] kept@[j]).wf(),
                kept@.len() <= i,
                alive == (|b: Bullet| b.ttl > 0),
            decreases n - i,
        {
            let mut b = self.bullets[i];
            b.update();
            proof {
                let m = |bb: Bullet| bb.moved();
                assert(orig.take(i + 1).map_values(m).drop_last() =~= orig.take(i as int).map_values(
                    m,
                ));
                assert(orig.take(i + 1).map_values(m).last() == orig[i as int].moved());
                orig.take(i as int).map_values(m).lemma_filter_len(alive);
                reveal(Seq::filter);
            }
            if b.ttl > 0 {
                kept.push(b);
            }
            i = i + 1;
        }
        proof {
            assert(orig.take(n as int) =~= orig);
        }
        self.bullets = kept;
    }
}

} // verus!
