//! The collision resolver: once per tick, after every entity has moved,
//! three detection phases run over a stable read of the collections, and
//! the recorded hits are applied afterwards — no mutation during iteration.
//! There is no player-versus-player phase: two overlapping ships coexist.

use vstd::prelude::*;

verus! {

use crate::FP;
use crate::WORLD_FP;
use crate::asteroid::Asteroid;
use crate::asteroid_collection::AsteroidCollection;
use crate::bullet::BULLET_RADIUS_FP;
use crate::bullet::Bullet;
use crate::player::PLAYER_RADIUS_FP;
use crate::player::Player;
use crate::player_collection::PlayerCollection;
use crate::player_collection::all_bullets;
use crate::player_collection::contains_id;

/// Two circles overlap: the squared distance between the centers is at
/// most the squared sum of the radii.
pub open spec fn overlap(x1: int, y1: int, r1: int, x2: int, y2: int, r2: int) -> bool {
    (x1 - x2) * (x1 - x2) + (y1 - y2) * (y1 - y2) <= (r1 + r2) * (r1 + r2)
}

/// Circle-overlap test on fixed-point world coordinates.
pub fn circles_overlap(x1: i64, y1: i64, r1: i64, x2: i64, y2: i64, r2: i64) -> (r: bool)
    requires
        0 <= x1 < WORLD_FP,
        0 <= y1 < WORLD_FP,
        0 <= x2 < WORLD_FP,
        0 <= y2 < WORLD_FP,
        0 <= r1 <= 100_000,
        0 <= r2 <= 100_000,
    ensures
        r == overlap(x1 as int, y1 as int, r1 as int, x2 as int, y2 as int, r2 as int),
{
    let dx = x1 - x2;
    let dy = y1 - y2;
    let rs = r1 + r2;
    proof {
        assert(0 <= dx * dx <= 1_000_000_000_000 && 0 <= dy * dy <= 1_000_000_000_000 && 0 <= rs
            * rs <= 40_000_000_000) by (nonlinear_arith)
            requires
                -1_000_000 < dx < 1_000_000,
                -1_000_000 < dy < 1_000_000,
                0 <= rs <= 200_000,
        ;
    }
    dx * dx + dy * dy <= rs * rs
}

/// An enemy projectile touches this ship.
pub open spec fn bullet_hits_player(p: Player, b: Bullet) -> bool {
    p.client_id != b.player_id && overlap(
        p.x as int,
        p.y as int,
        PLAYER_RADIUS_FP as int,
        b.x as int,
        b.y as int,
        BULLET_RADIUS_FP as int,
    )
}

/// The collision radius of an asteroid, in fixed-point units.
pub open spec fn asteroid_radius_fp(a: Asteroid) -> int {
    a.radius * (FP as int)
}

/// This ship touches this asteroid.
pub open spec fn player_hits_asteroid(p: Player, a: Asteroid) -> bool {
    overlap(
        p.x as int,
        p.y as int,
        PLAYER_RADIUS_FP as int,
        a.x as int,
        a.y as int,
        asteroid_radius_fp(a),
    )
}

/// This projectile touches this asteroid.
pub open spec fn bullet_hits_asteroid(b: Bullet, a: Asteroid) -> bool {
    overlap(
        b.x as int,
        b.y as int,
        BULLET_RADIUS_FP as int,
        a.x as int,
        a.y as int,
        asteroid_radius_fp(a),
    )
}

/// A recorded projectile-versus-player hit: who fired, who was struck,
/// and which projectile is consumed.
#[derive(Clone, Copy)]
pub struct Hit {
    pub player_id: u128,
    pub hitted_id: u128,
    pub bullet_id: u128,
}

impl Hit {
    pub fn new(player: &Player, bullet: &Bullet) -> (h: Hit)
        ensures
            h.player_id == bullet.player_id,
            h.hitted_id == player.client_id,
            h.bullet_id == bullet.id,
    {
        Hit { player_id: bullet.player_id, hitted_id: player.get_id(), bullet_id: bullet.id }
    }
}

/// A recorded player-versus-asteroid hit: which asteroid, which victim.
#[derive(Clone, Copy)]
pub struct AsteroidPlayerHit {
    pub asteroid_index: usize,
    pub victim_id: u128,
}

/// A recorded projectile-versus-asteroid hit: which asteroid, whose
/// projectile, and which projectile is consumed.
#[derive(Clone, Copy)]
pub struct AsteroidBulletHit {
    pub asteroid_index: usize,
    pub owner_id: u128,
    pub bullet_id: u128,
}

/// The first player, in registry order, that an enemy projectile touches;
/// the projectile's own owner is never a candidate.
pub open spec fn first_victim(ps: Seq<Player>, b: Bullet) -> Option<int>
    decreases ps.len(),
{
    if ps.len() == 0 {
        None
    } else if bullet_hits_player(ps[0], b) {
        Some(0int)
    } else {
        match first_victim(ps.skip(1), b) {
            Some(k) => Some(k + 1),
            None => None,
        }
    }
}

pub proof fn lemma_first_victim(ps: Seq<Player>, b: Bullet)
    ensures
        match first_victim(ps, b) {
            Some(i) => 0 <= i < ps.len() && bullet_hits_player(ps[i], b) && forall|k: int|
                0 <= k < i ==> !bullet_hits_player(#[trigger] ps[k], b),
            None => forall|k: int| 0 <= k < ps.len() ==> !bullet_hits_player(#[trigger] ps[k], b),
        },
    decreases ps.len(),
{
    if ps.len() > 0 && !bullet_hits_player(ps[0], b) {
        lemma_first_victim(ps.skip(1), b);
        match first_victim(ps.skip(1), b) {
            Some(k) => {
                assert(ps.skip(1)[k] == ps[k + 1]);
                assert forall|m: int| 0 <= m < k + 1 implies !bullet_hits_player(
                    #[trigger] ps[m],
                    b,
                ) by {
                    if m >= 1 {
                        assert(ps.skip(1)[m - 1] == ps[m]);
                        assert(!bullet_hits_player(ps.skip(1)[m - 1], b));
                    }
                }
            },
            None => {
                assert forall|m: int| 0 <= m < ps.len() implies !bullet_hits_player(
                    #[trigger] ps[m],
                    b,
                ) by {
                    if m >= 1 {
                        assert(ps.skip(1)[m - 1] == ps[m]);
                        assert(!bullet_hits_player(ps.skip(1)[m - 1], b));
                    }
                }
            },
        }
    }
}

/// Phase one, projectile versus player: each projectile in flight records
/// at most one hit, against the first enemy ship it overlaps.
pub open spec fn phase1_spec(ps: Seq<Player>, bs: Seq<Bullet>) -> Seq<Hit>
    decreases bs.len(),
{
    if bs.len() == 0 {
        Seq::empty()
    } else {
        phase1_spec(ps, bs.drop_last()) + match first_victim(ps, bs.last()) {
            Some(i) => seq![
                Hit {
                    player_id: bs.last().player_id,
                    hitted_id: ps[i].client_id,
                    bullet_id: bs.last().id,
                },
            ],
            None => Seq::empty(),
        }
    }
}

/// The asteroids one ship touches, each recorded with its index.
pub open spec fn hits_for_player(p: Player, asts: Seq<Asteroid>) -> Seq<AsteroidPlayerHit>
    decreases asts.len(),
{
    if asts.len() == 0 {
        Seq::empty()
    } else {
        hits_for_player(p, asts.drop_last()) + if player_hits_asteroid(p, asts.last()) {
            seq![
                AsteroidPlayerHit {
                    asteroid_index: (asts.len() - 1) as usize,
                    victim_id: p.client_id,
                },
            ]
        } else {
            Seq::empty()
        }
    }
}

/// Phase two, player versus asteroid: every overlapping pair is recorded.
pub open spec fn phase2_spec(ps: Seq<Player>, asts: Seq<Asteroid>) -> Seq<AsteroidPlayerHit>
    decreases ps.len(),
{
    if ps.len() == 0 {
        Seq::empty()
    } else {
        phase2_spec(ps.drop_last(), asts) + hits_for_player(ps.last(), asts)
    }
}

/// This projectile was already consumed by a phase-one hit.
pub open spec fn consumed(h1: Seq<Hit>, id: u128) -> bool {
    exists|k: int| 0 <= k < h1.len() && (#[trigger] h1[k]).bullet_id == id
}

/// The first asteroid, in field order, that a projectile touches.
pub open spec fn first_asteroid(b: Bullet, asts: Seq<Asteroid>) -> Option<int>
    decreases asts.len(),
{
    if asts.len() == 0 {
        None
    } else if bullet_hits_asteroid(b, asts[0]) {
        Some(0int)
    } else {
        match first_asteroid(b, asts.skip(1)) {
            Some(k) => Some(k + 1),
            None => None,
        }
    }
}

pub proof fn lemma_first_asteroid(b: Bullet, asts: Seq<Asteroid>)
    ensures
        match first_asteroid(b, asts) {
            Some(i) => 0 <= i < asts.len() && bullet_hits_asteroid(b, asts[i]) && forall|k: int|
                0 <= k < i ==> !bullet_hits_asteroid(b, #[trigger] asts[k]),
            None => forall|k: int|
                0 <= k < asts.len() ==> !bullet_hits_asteroid(b, #[trigger] asts[k]),
        },
    decreases asts.len(),
{
    if asts.len() > 0 && !bullet_hits_asteroid(b, asts[0]) {
        lemma_first_asteroid(b, asts.skip(1));
        match first_asteroid(b, asts.skip(1)) {
            Some(k) => {
                assert(asts.skip(1)[k] == asts[k + 1]);
                assert forall|m: int| 0 <= m < k + 1 implies !bullet_hits_asteroid(
                    b,
                    #[trigger] asts[m],
                ) by {
                    if m >= 1 {
                        assert(asts.skip(1)[m - 1] == asts[m]);
                        assert(!bullet_hits_asteroid(b, asts.skip(1)[m - 1]));
                    }
                }
            },
            None => {
                assert forall|m: int| 0 <= m < asts.len() implies !bullet_hits_asteroid(
                    b,
                    #[trigger] asts[m],
                ) by {
                    if m >= 1 {
                        assert(asts.skip(1)[m - 1] == asts[m]);
                        assert(!bullet_hits_asteroid(b, asts.skip(1)[m - 1]));
                    }
                }
            },
        }
    }
}

/// Phase three, projectile versus asteroid: each projectile not already
/// consumed in phase one records at most one hit, against the first
/// asteroid it overlaps — the detection order decides which category wins.
pub open spec fn phase3_spec(bs: Seq<Bullet>, asts: Seq<Asteroid>, h1: Seq<Hit>) -> Seq<
    AsteroidBulletHit,
>
    decreases bs.len(),
{
    if bs.len() == 0 {
        Seq::empty()
    } else {
        phase3_spec(bs.drop_last(), asts, h1) + if !consumed(h1, bs.last().id) {
            match first_asteroid(bs.last(), asts) {
                Some(j) => seq![
                    AsteroidBulletHit {
                        asteroid_index: j as usize,
                        owner_id: bs.last().player_id,
                        bullet_id: bs.last().id,
                    },
                ],
                None => Seq::empty(),
            }
        } else {
            Seq::empty()
        }
    }
}

/// This identity is struck by some recorded hit.
pub open spec fn is_victim(h1: Seq<Hit>, h2: Seq<AsteroidPlayerHit>, id: u128) -> bool {
    (exists|k: int| 0 <= k < h1.len() && (#[trigger] h1[k]).hitted_id == id) || (exists|k: int|
        0 <= k < h2.len() && (#[trigger] h2[k]).victim_id == id)
}

/// The post-state ship is the pre-state ship with only its projectile
/// collection changed.
pub open spec fn same_ship(post: Player, pre: Player) -> bool {
    post == (Player { bullets: post.bullets, ..pre })
}

/// The post-state ship is the pre-state ship, except that projectiles may
/// have been taken out of its collection: everything it still carries was
/// already there.
pub open spec fn ship_from(post: Player, pre: Player) -> bool {
    &&& same_ship(post, pre)
    &&& forall|k: int|
        0 <= k < post.bullets.bullets@.len() ==> pre.bullets.bullets@.contains(
            #[trigger] post.bullets.bullets@[k],
        )
}

pub proof fn lemma_ship_from_refl(p: Player)
    ensures
        ship_from(p, p),
{
    assert forall|k: int| 0 <= k < p.bullets.bullets@.len() implies p.bullets.bullets@.contains(
        #[trigger] p.bullets.bullets@[k],
    ) by {
        assert(p.bullets.bullets@[k] == p.bullets.bullets@[k]);
    }
}

pub proof fn lemma_ship_from_trans(a: Player, b: Player, c: Player)
    requires
        ship_from(a, b),
        ship_from(b, c),
    ensures
        ship_from(a, c),
{
    assert forall|k: int| 0 <= k < a.bullets.bullets@.len() implies c.bullets.bullets@.contains(
        #[trigger] a.bullets.bullets@[k],
    ) by {
        assert(b.bullets.bullets@.contains(a.bullets.bullets@[k]));
        let l = choose|l: int|
            0 <= l < b.bullets.bullets@.len() && b.bullets.bullets@[l] == a.bullets.bullets@[k];
        assert(c.bullets.bullets@.contains(b.bullets.bullets@[l]));
    }
}

/// Ship `i` of `cur` comes from some ship of `orig`: same state, and every
/// projectile it still carries was already in that ship's collection.
pub open spec fn ship_derived(cur: Seq<Player>, orig: Seq<Player>, i: int) -> bool {
    exists|j: int| 0 <= j < orig.len() && #[trigger] ship_from(cur[i], orig[j])
}

/// The identities the resolver evicts from the world described by
/// `ps`/`asts`: the victims of the projectile and asteroid phases.
pub open spec fn victim_of_tick(ps: Seq<Player>, asts: Seq<Asteroid>, id: u128) -> bool {
    is_victim(phase1_spec(ps, all_bullets(ps)), phase2_spec(ps, asts), id)
}

/// A projectile never registers a hit against its own owner, even when
/// the two overlap geometrically: every hit the projectile phase records
/// names a victim other than the shooter.
pub proof fn lemma_no_self_hit(ps: Seq<Player>, bs: Seq<Bullet>)
    ensures
        forall|k: int|
            0 <= k < phase1_spec(ps, bs).len() ==> (#[trigger] phase1_spec(ps, bs)[k]).player_id
                != phase1_spec(ps, bs)[k].hitted_id,
    decreases bs.len(),
{
    if bs.len() > 0 {
        lemma_no_self_hit(ps, bs.drop_last());
        lemma_first_victim(ps, bs.last());
        let pre = phase1_spec(ps, bs.drop_last());
        assert forall|k: int| 0 <= k < phase1_spec(ps, bs).len() implies (#[trigger] phase1_spec(
            ps,
            bs,
        )[k]).player_id != phase1_spec(ps, bs)[k].hitted_id by {
            if k < pre.len() {
                assert(phase1_spec(ps, bs)[k] == pre[k]);
            } else {
                match first_victim(ps, bs.last()) {
                    Some(i) => {
                        assert(bullet_hits_player(ps[i], bs.last()));
                    },
                    None => {},
                }
            }
        }
    }
}

/// When no projectile touches any enemy ship, the projectile phase
/// records nothing.
pub proof fn lemma_phase1_no_hits(ps: Seq<Player>, bs: Seq<Bullet>)
    requires
        forall|i: int, j: int|
            0 <= i < ps.len() && 0 <= j < bs.len() ==> !bullet_hits_player(
                #[trigger] ps[i],
                #[trigger] bs[j],
            ),
    ensures
        phase1_spec(ps, bs) == Seq::<Hit>::empty(),
    decreases bs.len(),
{
    if bs.len() > 0 {
        let d = bs.drop_last();
        assert forall|i: int, j: int|
            0 <= i < ps.len() && 0 <= j < d.len() implies !bullet_hits_player(
            #[trigger] ps[i],
            #[trigger] d[j],
        ) by {
            assert(d[j] == bs[j]);
        }
        lemma_phase1_no_hits(ps, d);
        lemma_first_victim(ps, bs.last());
        match first_victim(ps, bs.last()) {
            Some(i) => {
                assert(bs[bs.len() - 1] == bs.last());
                assert(false);
            },
            None => {},
        }
        assert(phase1_spec(ps, bs) =~= Seq::<Hit>::empty());
    } else {
        assert(phase1_spec(ps, bs) =~= Seq::<Hit>::empty());
    }
}

/// With no asteroids there are no player-versus-asteroid hits.
pub proof fn lemma_phase2_no_asteroids(ps: Seq<Player>)
    ensures
        phase2_spec(ps, Seq::<Asteroid>::empty()) == Seq::<AsteroidPlayerHit>::empty(),
    decreases ps.len(),
{
    if ps.len() > 0 {
        lemma_phase2_no_asteroids(ps.drop_last());
        assert(phase2_spec(ps, Seq::<Asteroid>::empty()) =~= Seq::<AsteroidPlayerHit>::empty());
    } else {
        assert(phase2_spec(ps, Seq::<Asteroid>::empty()) =~= Seq::<AsteroidPlayerHit>::empty());
    }
}

/// With no asteroids there are no projectile-versus-asteroid hits.
pub proof fn lemma_phase3_no_asteroids(bs: Seq<Bullet>, h1: Seq<Hit>)
    ensures
        phase3_spec(bs, Seq::<Asteroid>::empty(), h1) == Seq::<AsteroidBulletHit>::empty(),
    decreases bs.len(),
{
    if bs.len() > 0 {
        lemma_phase3_no_asteroids(bs.drop_last(), h1);
        assert(phase3_spec(bs, Seq::<Asteroid>::empty(), h1) =~= Seq::<
            AsteroidBulletHit,
        >::empty());
    } else {
        assert(phase3_spec(bs, Seq::<Asteroid>::empty(), h1) =~= Seq::<
            AsteroidBulletHit,
        >::empty());
    }
}

/// The first enemy ship each projectile overlaps, projectile by
/// projectile, over a stable read of the registry.
fn detect_phase1(players: &Vec<Player>, bullets: &Vec<Bullet>) -> (r: Vec<Hit>)
    requires
        forall|i: int| 0 <= i < players@.len() ==> (#[trigger] players@[i]).wf(),
        forall|i: int| 0 <= i < bullets@.len() ==> (#[trigger] bullets@[i]).wf(),
    ensures
        r@ == phase1_spec(players@, bullets@),
        forall|k: int| 0 <= k < r@.len() ==> (#[trigger] r@[k]).player_id != r@[k].hitted_id,
{
    let mut hits: Vec<Hit> = Vec::new();
    let nb = bullets.len();
    let mut i: usize = 0;
    proof {
        assert(bullets@.take(0int) =~= Seq::<Bullet>::empty());
    }
    while i < nb
        invariant
            nb == bullets@.len(),
            0 <= i <= nb,
            forall|j: int| 0 <= j < players@.len() ==> (#[trigger] players@[j]).wf(),
            forall|j: int| 0 <= j < nb ==> (#[trigger] bullets@[j]).wf(),
            hits@ == phase1_spec(players@, bullets@.take(i as int)),
            forall|k: int|
                0 <= k < hits@.len() ==> (#[trigger] hits@[k]).player_id != hits@[k].hitted_id,
        decreases nb - i,
    {
        let b = bullets[i];
        let np = players.len();
        let mut j: usize = 0;
        let mut victim: Option<usize> = None;
        while victim.is_none() && j < np
            invariant
                np == players@.len(),
                0 <= j <= np,
                forall|m: int| 0 <= m < np ==> (#[trigger] players@[m]).wf(),
                b.wf(),
                forall|k: int| 0 <= k < j ==> !bullet_hits_player(#[trigger] players@[k], b),
                match victim {
                    Some(v) => v == j && j < np && bullet_hits_player(players@[v as int], b),
                    None => true,
                },
            decreases np - j, (if victim.is_none() { 1int } else { 0int }),
        {
            let p = &players[j];
            let mut hit_here = false;
            if p.get_id() != b.player_id {
                if circles_overlap(p.x, p.y, PLAYER_RADIUS_FP, b.x, b.y, BULLET_RADIUS_FP) {
                    hit_here = true;
                }
            }
            if hit_here {
                victim = Some(j);
            } else {
                j = j + 1;
            }
        }
        proof {
            lemma_first_victim(players@, b);
            assert(bullets@.take(i + 1).drop_last() =~= bullets@.take(i as int));
            assert(bullets@.take(i + 1).last() == bullets@[i as int]);
        }
        match victim {
            Some(v) => {
                let h = Hit::new(&players[v], &b);
                hits.push(h);
                proof {
                    assert(first_victim(players@, b) == Some(v as int));
                }
            },
            None => {
                proof {
                    assert(first_victim(players@, b) is None);
                }
            },
        }
        i = i + 1;
    }
    proof {
        assert(bullets@.take(nb as int) =~= bullets@);
    }
    hits
}

/// Every overlapping (player, asteroid) pair, players outermost, over a
/// stable read of both collections.
fn detect_phase2(players: &Vec<Player>, asteroids: &Vec<Asteroid>) -> (r: Vec<AsteroidPlayerHit>)
    requires
        forall|i: int| 0 <= i < players@.len() ==> (#[trigger] players@[i]).wf(),
        forall|i: int| 0 <= i < asteroids@.len() ==> (#[trigger] asteroids@[i]).wf(),
    ensures
        r@ == phase2_spec(players@, asteroids@),
        forall|k: int| 0 <= k < r@.len() ==> (#[trigger] r@[k]).asteroid_index < asteroids@.len(),
{
    let mut hits: Vec<AsteroidPlayerHit> = Vec::new();
    let np = players.len();
    let mut i: usize = 0;
    proof {
        assert(players@.take(0int) =~= Seq::<Player>::empty());
    }
    while i < np
        invariant
            np == players@.len(),
            0 <= i <= np,
            forall|j: int| 0 <= j < np ==> (#[trigger] players@[j]).wf(),
            forall|j: int| 0 <= j < asteroids@.len() ==> (#[trigger] asteroids@[j]).wf(),
            hits@ == phase2_spec(players@.take(i as int), asteroids@),
            forall|k: int|
                0 <= k < hits@.len() ==> (#[trigger] hits@[k]).asteroid_index < asteroids@.len(),
        decreases np - i,
    {
        let na = asteroids.len();
        let mut j: usize = 0;
        proof {
            assert(asteroids@.take(0int) =~= Seq::<Asteroid>::empty());
            assert(hits_for_player(players@[i as int], asteroids@.take(0int)) =~= Seq::<
                AsteroidPlayerHit,
            >::empty());
            assert(hits@ =~= hits@ + Seq::<AsteroidPlayerHit>::empty());
        }
        while j < na
            invariant
                np == players@.len(),
                0 <= i < np,
                na == asteroids@.len(),
                0 <= j <= na,
                forall|m: int| 0 <= m < np ==> (#[trigger] players@[m]).wf(),
                forall|m: int| 0 <= m < na ==> (#[trigger] asteroids@[m]).wf(),
                hits@ == phase2_spec(players@.take(i as int), asteroids@) + hits_for_player(
                    players@[i as int],
                    asteroids@.take(j as int),
                ),
                forall|k: int| 0 <= k < hits@.len() ==> (#[trigger] hits@[k]).asteroid_index < na,
            decreases na - j,
        {
            let p = &players[i];
            let a = &asteroids[j];
            proof {
                assert(asteroids@.take(j + 1).drop_last() =~= asteroids@.take(j as int));
                assert(asteroids@.take(j + 1).last() == asteroids@[j as int]);
            }
            if circles_overlap(p.x, p.y, PLAYER_RADIUS_FP, a.x, a.y, (a.radius as i64) * FP) {
                hits.push(AsteroidPlayerHit { asteroid_index: j, victim_id: p.client_id });
            }
            j = j + 1;
        }
        proof {
            assert(asteroids@.take(na as int) =~= asteroids@);
            assert(players@.take(i + 1).drop_last() =~= players@.take(i as int));
            assert(players@.take(i + 1).last() == players@[i as int]);
        }
        i = i + 1;
    }
    proof {
        assert(players@.take(np as int) =~= players@);
    }
    hits
}

/// The first asteroid each not-yet-consumed projectile overlaps, over a
/// stable read of both collections.
fn detect_phase3(bullets: &Vec<Bullet>, asteroids: &Vec<Asteroid>, h1: &Vec<Hit>) -> (r: Vec<
    AsteroidBulletHit,
>)
    requires
        forall|i: int| 0 <= i < bullets@.len() ==> (#[trigger] bullets@[i]).wf(),
        forall|i: int| 0 <= i < asteroids@.len() ==> (#[trigger] asteroids@[i]).wf(),
    ensures
        r@ == phase3_spec(bullets@, asteroids@, h1@),
        forall|k: int| 0 <= k < r@.len() ==> (#[trigger] r@[k]).asteroid_index < asteroids@.len(),
{
    let mut hits: Vec<AsteroidBulletHit> = Vec::new();
    let nb = bullets.len();
    let mut i: usize = 0;
    proof {
        assert(bullets@.take(0int) =~= Seq::<Bullet>::empty());
    }
    while i < nb
        invariant
            nb == bullets@.len(),
            0 <= i <= nb,
            forall|j: int| 0 <= j < nb ==> (#[trigger] bullets@[j]).wf(),
            forall|j: int| 0 <= j < asteroids@.len() ==> (#[trigger] asteroids@[j]).wf(),
            hits@ == phase3_spec(bullets@.take(i as int), asteroids@, h1@),
            forall|k: int|
                0 <= k < hits@.len() ==> (#[trigger] hits@[k]).asteroid_index < asteroids@.len(),
        decreases nb - i,
    {
        let b = bullets[i];
        let mut used = false;
        let nh = h1.len();
        let mut k: usize = 0;
        while k < nh
            invariant
                nh == h1@.len(),
                0 <= k <= nh,
                used == exists|m: int| 0 <= m < k && (#[trigger] h1@[m]).bullet_id == b.id,
            decreases nh - k,
        {
            if h1[k].bullet_id == b.id {
                used = true;
            }
            k = k + 1;
        }
        proof {
            assert(used == consumed(h1@, b.id));
            assert(bullets@.take(i + 1).drop_last() =~= bullets@.take(i as int));
            assert(bullets@.take(i + 1).last() == bullets@[i as int]);
        }
        if !used {
            let na = asteroids.len();
            let mut j: usize = 0;
            let mut target: Option<usize> = None;
            while target.is_none() && j < na
                invariant
                    na == asteroids@.len(),
                    0 <= j <= na,
                    forall|m: int| 0 <= m < na ==> (#[trigger] asteroids@[m]).wf(),
                    b.wf(),
                    forall|m: int| 0 <= m < j ==> !bullet_hits_asteroid(b, #[trigger] asteroids@[m]),
                    match target {
                        Some(t) => t == j && j < na && bullet_hits_asteroid(b, asteroids@[t as int]),
                        None => true,
                    },
                decreases na - j, (if target.is_none() { 1int } else { 0int }),
            {
                let a = &asteroids[j];
                if circles_overlap(b.x, b.y, BULLET_RADIUS_FP, a.x, a.y, (a.radius as i64) * FP) {
                    target = Some(j);
                } else {
                    j = j + 1;
                }
            }
            proof {
                lemma_first_asteroid(b, asteroids@);
            }
            match target {
                Some(t) => {
                    hits.push(
                        AsteroidBulletHit {
                            asteroid_index: t,
                            owner_id: b.player_id,
                            bullet_id: b.id,
                        },
                    );
                    proof {
                        assert(first_asteroid(b, asteroids@) == Some(t as int));
                    }
                },
                None => {
                    proof {
                        assert(first_asteroid(b, asteroids@) is None);
                    }
                },
            }
        }
        i = i + 1;
    }
    proof {
        assert(bullets@.take(nb as int) =~= bullets@);
    }
    hits
}

/// Some recorded hit names the asteroid at `idx`.
pub open spec fn struck_at(h2: Seq<AsteroidPlayerHit>, h3: Seq<AsteroidBulletHit>, idx: int) -> bool {
    (exists|m: int| 0 <= m < h2.len() && (#[trigger] h2[m]).asteroid_index == idx) || (exists|m: int|
        0 <= m < h3.len() && (#[trigger] h3[m]).asteroid_index == idx)
}

/// How the field's population changes when the struck asteroids at
/// indices `from` and above of `pre` are removed: a struck asteroid with
/// children is replaced by two (net one more), one without children just
/// leaves (net one fewer).
pub open spec fn len_delta(
    pre: Seq<Asteroid>,
    h2: Seq<AsteroidPlayerHit>,
    h3: Seq<AsteroidBulletHit>,
    from: int,
) -> int
    decreases pre.len() - from,
{
    if from < 0 || from >= pre.len() {
        0
    } else {
        (if struck_at(h2, h3, from) {
            if crate::asteroid::child_of(pre[from].size) is Some {
                1int
            } else {
                -1int
            }
        } else {
            0int
        }) + len_delta(pre, h2, h3, from + 1)
    }
}

pub proof fn lemma_len_delta_bounds(
    pre: Seq<Asteroid>,
    h2: Seq<AsteroidPlayerHit>,
    h3: Seq<AsteroidBulletHit>,
    from: int,
)
    requires
        0 <= from <= pre.len(),
    ensures
        -(pre.len() - from) <= len_delta(pre, h2, h3, from) <= pre.len() - from,
    decreases pre.len() - from,
{
    if from < pre.len() {
        lemma_len_delta_bounds(pre, h2, h3, from + 1);
    }
}

/// Applies the recorded hits: struck asteroids are removed in descending
/// index order (splits appended at the end never disturb the indices still
/// to be processed), consumed projectiles leave their owners' collections,
/// and struck players leave the registry.
fn apply_hits(
    players: &mut PlayerCollection,
    asteroids: &mut AsteroidCollection,
    h1: &Vec<Hit>,
    h2: &Vec<AsteroidPlayerHit>,
    h3: &Vec<AsteroidBulletHit>,
)
    requires
        old(players).wf(),
        old(asteroids).wf(),
    ensures
        final(players).wf(),
        final(asteroids).wf(),
        forall|id: u128|
            #[trigger] contains_id(final(players).players@, id) == (contains_id(
                old(players).players@,
                id,
            ) && !is_victim(h1@, h2@, id)),
        forall|i: int|
            0 <= i < final(players).players@.len() ==> #[trigger] ship_derived(
                final(players).players@,
                old(players).players@,
                i,
            ),
        h1@.len() == 0 && h2@.len() == 0 && h3@.len() == 0 ==> *final(players) == *old(players)
            && *final(asteroids) == *old(asteroids),
        final(asteroids).asteroids@.len() == old(asteroids).asteroids@.len() + len_delta(
            old(asteroids).asteroids@,
            h2@,
            h3@,
            0,
        ),
        final(asteroids).spawn_counter == old(asteroids).spawn_counter,
{
    // Asteroid removals run from the highest index down: swap-style removal
    // moves only elements above the index being removed, and split children
    // are appended past it, so every index still to be visited keeps its
    // original occupant.
    let mut idx = asteroids.len();
    proof {
        assert(asteroids.asteroids@.subrange(0, idx as int) =~= old(asteroids).asteroids@.subrange(
            0,
            idx as int,
        ));
    }
    while idx > 0
        invariant
            asteroids.wf(),
            idx <= old(asteroids).asteroids@.len(),
            h2@.len() == 0 && h3@.len() == 0 ==> *asteroids == *old(asteroids),
            asteroids.asteroids@.len() == old(asteroids).asteroids@.len() + len_delta(
                old(asteroids).asteroids@,
                h2@,
                h3@,
                idx as int,
            ),
            idx <= asteroids.asteroids@.len(),
            asteroids.asteroids@.subrange(0, idx as int) == old(asteroids).asteroids@.subrange(
                0,
                idx as int,
            ),
            asteroids.spawn_counter == old(asteroids).spawn_counter,
        decreases idx,
    {
        idx = idx - 1;
        let ghost pre_field = asteroids.asteroids@;
        let ghost orig_asts = old(asteroids).asteroids@;
        let mut struck = false;
        let n2 = h2.len();
        let mut k: usize = 0;
        while k < n2
            invariant
                n2 == h2@.len(),
                0 <= k <= n2,
                struck == exists|m: int|
                    0 <= m < k && (#[trigger] h2@[m]).asteroid_index == idx,
            decreases n2 - k,
        {
            if h2[k].asteroid_index == idx {
                struck = true;
            }
            k = k + 1;
        }
        let n3 = h3.len();
        let mut k3: usize = 0;
        while k3 < n3
            invariant
                n2 == h2@.len(),
                n3 == h3@.len(),
                0 <= k3 <= n3,
                struck == ((exists|m: int|
                    0 <= m < n2 && (#[trigger] h2@[m]).asteroid_index == idx) || (exists|m: int|
                    0 <= m < k3 && (#[trigger] h3@[m]).asteroid_index == idx)),
            decreases n3 - k3,
        {
            if h3[k3].asteroid_index == idx {
                struck = true;
            }
            k3 = k3 + 1;
        }
        proof {
            assert(struck == struck_at(h2@, h3@, idx as int));
            lemma_len_delta_bounds(orig_asts, h2@, h3@, idx + 1);
            assert(pre_field.subrange(0, idx + 1)[idx as int] == orig_asts.subrange(
                0,
                idx + 1,
            )[idx as int]);
            assert(pre_field[idx as int] == orig_asts[idx as int]);
            assert forall|m: int|
                0 <= m < idx implies pre_field.subrange(0, idx as int)[m] == orig_asts.subrange(
                0,
                idx as int,
            )[m] by {
                assert(pre_field.subrange(0, idx + 1)[m] == orig_asts.subrange(0, idx + 1)[m]);
            }
            assert(pre_field.subrange(0, idx as int) =~= orig_asts.subrange(0, idx as int));
        }
        if struck {
            proof {
                // everything above `idx` is already processed, so the field
                // still holds at least the original prefix through `idx`
                assert(pre_field.len() >= idx + 1);
            }
            asteroids.remove_at(idx);
            proof {
                let removed = pre_field[idx as int];
                let base = pre_field.update(idx as int, pre_field.last()).drop_last();
                match crate::asteroid::child_of(removed.size) {
                    Some(_cs) => {
                        assert(asteroids.asteroids@.len() == pre_field.len() + 1);
                        assert forall|m: int|
                            0 <= m < idx implies asteroids.asteroids@.subrange(0, idx as int)[m]
                            == orig_asts.subrange(0, idx as int)[m] by {
                            assert(asteroids.asteroids@.subrange(0, base.len() as int)[m]
                                == base[m]);
                            assert(base[m] == pre_field[m]);
                        }
                        assert(asteroids.asteroids@.subrange(0, idx as int) =~= orig_asts.subrange(
                            0,
                            idx as int,
                        ));
                    },
                    None => {
                        assert(asteroids.asteroids@.len() == pre_field.len() - 1);
                        assert forall|m: int|
                            0 <= m < idx implies asteroids.asteroids@.subrange(0, idx as int)[m]
                            == orig_asts.subrange(0, idx as int)[m] by {
                            assert(asteroids.asteroids@[m] == base[m]);
                            assert(base[m] == pre_field[m]);
                        }
                        assert(asteroids.asteroids@.subrange(0, idx as int) =~= orig_asts.subrange(
                            0,
                            idx as int,
                        ));
                    },
                }
            }
        }
    }
    proof {
        assert(asteroids.asteroids@.len() == old(asteroids).asteroids@.len() + len_delta(
            old(asteroids).asteroids@,
            h2@,
            h3@,
            0,
        ));
    }
    // Consumed projectiles leave their owners' collections.
    proof {
        assert forall|m: int| 0 <= m < players.players@.len() implies #[trigger] ship_derived(
            players.players@,
            old(players).players@,
            m,
        ) by {
            lemma_ship_from_refl(players.players@[m]);
        }
    }
    let n1 = h1.len();
    let mut i: usize = 0;
    while i < n1
        invariant
            n1 == h1@.len(),
            0 <= i <= n1,
            players.wf(),
            h1@.len() == 0 && h2@.len() == 0 && h3@.len() == 0 ==> *players == *old(players),
            forall|id: u128|
                #[trigger] contains_id(players.players@, id) == contains_id(
                    old(players).players@,
                    id,
                ),
            forall|m: int|
                0 <= m < players.players@.len() ==> #[trigger] ship_derived(
                    players.players@,
                    old(players).players@,
                    m,
                ),
        decreases n1 - i,
    {
        let h = h1[i];
        let ghost owner = h.player_id;
        let ghost before = players.players@;
        players.rm_bullet_of(h.player_id, h.bullet_id);
        proof {
            assert forall|m: int| 0 <= m < players.players@.len() implies #[trigger] ship_derived(
                players.players@,
                old(players).players@,
                m,
            ) by {
                let now = players.players@;
                if before[m].client_id == owner {
                    crate::bullet_collection::lemma_bullets_without_elems(
                        before[m].bullets.bullets@,
                        h.bullet_id,
                    );
                    assert(ship_from(now[m], before[m]));
                } else {
                    assert(now[m] == before[m]);
                    lemma_ship_from_refl(now[m]);
                }
                assert(ship_derived(before, old(players).players@, m));
                let j = choose|j: int|
                    0 <= j < old(players).players@.len() && #[trigger] ship_from(
                        before[m],
                        old(players).players@[j],
                    );
                lemma_ship_from_trans(now[m], before[m], old(players).players@[j]);
            }
        }
        i = i + 1;
    }
    let n3 = h3.len();
    let mut i3: usize = 0;
    while i3 < n3
        invariant
            n3 == h3@.len(),
            0 <= i3 <= n3,
            players.wf(),
            h1@.len() == 0 && h2@.len() == 0 && h3@.len() == 0 ==> *players == *old(players),
            forall|id: u128|
                #[trigger] contains_id(players.players@, id) == contains_id(
                    old(players).players@,
                    id,
                ),
            forall|m: int|
                0 <= m < players.players@.len() ==> #[trigger] ship_derived(
                    players.players@,
                    old(players).players@,
                    m,
                ),
        decreases n3 - i3,
    {
        let h = h3[i3];
        let ghost owner = h.owner_id;
        let ghost before = players.players@;
        players.rm_bullet_of(h.owner_id, h.bullet_id);
        proof {
            assert forall|m: int| 0 <= m < players.players@.len() implies #[trigger] ship_derived(
                players.players@,
                old(players).players@,
                m,
            ) by {
                let now = players.players@;
                if before[m].client_id == owner {
                    crate::bullet_collection::lemma_bullets_without_elems(
                        before[m].bullets.bullets@,
                        h.bullet_id,
                    );
                    assert(ship_from(now[m], before[m]));
                } else {
                    assert(now[m] == before[m]);
                    lemma_ship_from_refl(now[m]);
                }
                assert(ship_derived(before, old(players).players@, m));
                let j = choose|j: int|
                    0 <= j < old(players).players@.len() && #[trigger] ship_from(
                        before[m],
                        old(players).players@[j],
                    );
                lemma_ship_from_trans(now[m], before[m], old(players).players@[j]);
            }
        }
        i3 = i3 + 1;
    }
    // Struck players leave the registry; removal is idempotent, so a player
    // already gone from an earlier hit is simply not found again.
    let mut v1: usize = 0;
    while v1 < n1
        invariant
            n1 == h1@.len(),
            0 <= v1 <= n1,
            players.wf(),
            h1@.len() == 0 && h2@.len() == 0 && h3@.len() == 0 ==> *players == *old(players),
            forall|id: u128|
                #[trigger] contains_id(players.players@, id) == (contains_id(
                    old(players).players@,
                    id,
                ) && !(exists|k: int| 0 <= k < v1 && (#[trigger] h1@[k]).hitted_id == id)),
            forall|m: int|
                0 <= m < players.players@.len() ==> #[trigger] ship_derived(
                    players.players@,
                    old(players).players@,
                    m,
                ),
        decreases n1 - v1,
    {
        let h = h1[v1];
        let ghost before = players.players@;
        players.rm_player(h.hitted_id);
        proof {
            assert forall|m: int| 0 <= m < players.players@.len() implies #[trigger] ship_derived(
                players.players@,
                old(players).players@,
                m,
            ) by {
                let now = players.players@;
                let jb = choose|jb: int|
                    0 <= jb < before.len() && #[trigger] now[m] == before[jb];
                lemma_ship_from_refl(now[m]);
                assert(ship_from(now[m], before[jb]));
                assert(ship_derived(before, old(players).players@, jb));
                let j = choose|j: int|
                    0 <= j < old(players).players@.len() && #[trigger] ship_from(
                        before[jb],
                        old(players).players@[j],
                    );
                lemma_ship_from_trans(now[m], before[jb], old(players).players@[j]);
            }
        }
        v1 = v1 + 1;
    }
    let n2 = h2.len();
    let mut v2: usize = 0;
    while v2 < n2
        invariant
            n1 == h1@.len(),
            n2 == h2@.len(),
            0 <= v2 <= n2,
            players.wf(),
            h1@.len() == 0 && h2@.len() == 0 && h3@.len() == 0 ==> *players == *old(players),
            forall|id: u128|
                #[trigger] contains_id(players.players@, id) == (contains_id(
                    old(players).players@,
                    id,
                ) && !(exists|k: int| 0 <= k < n1 && (#[trigger] h1@[k]).hitted_id == id) && !(
                exists|k: int| 0 <= k < v2 && (#[trigger] h2@[k]).victim_id == id)),
            forall|m: int|
                0 <= m < players.players@.len() ==> #[trigger] ship_derived(
                    players.players@,
                    old(players).players@,
                    m,
                ),
        decreases n2 - v2,
    {
        let h = h2[v2];
        let ghost before = players.players@;
        players.rm_player(h.victim_id);
        proof {
            assert forall|m: int| 0 <= m < players.players@.len() implies #[trigger] ship_derived(
                players.players@,
                old(players).players@,
                m,
            ) by {
                let now = players.players@;
                let jb = choose|jb: int|
                    0 <= jb < before.len() && #[trigger] now[m] == before[jb];
                lemma_ship_from_refl(now[m]);
                assert(ship_from(now[m], before[jb]));
                assert(ship_derived(before, old(players).players@, jb));
                let j = choose|j: int|
                    0 <= j < old(players).players@.len() && #[trigger] ship_from(
                        before[jb],
                        old(players).players@[j],
                    );
                lemma_ship_from_trans(now[m], before[jb], old(players).players@[j]);
            }
        }
        v2 = v2 + 1;
    }
}

/// The whole resolver: detection over a stable read of the collections
/// taken before any mutation, then the application phase. A player
/// survives if and only if it was there and no recorded hit struck it; in
/// particular a projectile never strikes its own owner, however close.
pub fn resolve(players: &mut PlayerCollection, asteroids: &mut AsteroidCollection)
    requires
        old(players).wf(),
        old(asteroids).wf(),
    ensures
        final(players).wf(),
        final(asteroids).wf(),
        forall|id: u128|
            #[trigger] contains_id(final(players).players@, id) == (contains_id(
                old(players).players@,
                id,
            ) && !victim_of_tick(old(players).players@, old(asteroids).asteroids@, id)),
        forall|i: int|
            0 <= i < final(players).players@.len() ==> #[trigger] ship_derived(
                final(players).players@,
                old(players).players@,
                i,
            ),
        ({
            let ps = old(players).players@;
            let bs = all_bullets(ps);
            let h1s = phase1_spec(ps, bs);
            h1s.len() == 0 && phase2_spec(ps, old(asteroids).asteroids@).len() == 0
                && phase3_spec(bs, old(asteroids).asteroids@, h1s).len() == 0
        }) ==> *final(players) == *old(players) && *final(asteroids) == *old(asteroids),
        ({
            let ps = old(players).players@;
            let bs = all_bullets(ps);
            let h1s = phase1_spec(ps, bs);
            &&& final(asteroids).asteroids@.len() == old(asteroids).asteroids@.len() + len_delta(
                old(asteroids).asteroids@,
                phase2_spec(ps, old(asteroids).asteroids@),
                phase3_spec(bs, old(asteroids).asteroids@, h1s),
                0,
            )
            &&& final(asteroids).spawn_counter == old(asteroids).spawn_counter
        }),
{
    let bullets = players.get_all_bullets();
    proof {
        crate::player_collection::lemma_all_bullets_wf(players.players@);
    }
    let h1 = detect_phase1(players.get_players(), &bullets);
    let h2 = detect_phase2(players.get_players(), asteroids.get_all());
    let h3 = detect_phase3(&bullets, asteroids.get_all(), &h1);
    apply_hits(players, asteroids, &h1, &h2, &h3);
}

} // verus!
