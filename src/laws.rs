//! Properties that hold across operations and ticks.
use vstd::prelude::*;
use crate::engine::{
    after_hits, apply_hits, conns, cool_all, cooled_down, eliminated, hit_all, hit_player,
    next_bullets, player_ids, survivors, PhysicsEngine,
};
use crate::entities::{moves_of, BodyKey, BulletEntity, MoveDirection, PhysicsPlayerInfo, HEALTH_FLOOR, MAX_BULLET_AGE};

verus! {

broadcast use Seq::group_seq_extra, vstd::seq_lib::group_seq_lib_default;

/// There are exactly as many player entities as connections that have a
/// player: no connection ever owns two.
pub proof fn lemma_player_count(e: PhysicsEngine)
    requires
        e.wf(),
    ensures
        e.players().len() == player_ids(e.players()).len(),
{
    conns(e.players()).unique_seq_to_set();
}

/// Collisions change health and nothing else of a player, and keep the
/// order of the players.
pub proof fn lemma_apply_hits_fields(ps: Seq<PhysicsPlayerInfo>, hits: Seq<BodyKey>, damage: u64)
    ensures
        apply_hits(ps, hits, damage).len() == ps.len(),
        forall|i: int|
            0 <= i < ps.len() ==> {
                let q = #[trigger] apply_hits(ps, hits, damage)[i];
                &&& q.conn == ps[i].conn
                &&& q.body == ps[i].body
                &&& q.dir == ps[i].dir
                &&& q.bullet_cooldown == ps[i].bullet_cooldown
            },
    decreases hits.len(),
{
    if hits.len() > 0 {
        lemma_apply_hits_fields(ps, hits.drop_last(), damage);
        let prev = apply_hits(ps, hits.drop_last(), damage);
        assert forall|i: int| 0 <= i < ps.len() implies {
            let q = #[trigger] apply_hits(ps, hits, damage)[i];
            &&& q.conn == ps[i].conn
            &&& q.body == ps[i].body
            &&& q.dir == ps[i].dir
            &&& q.bullet_cooldown == ps[i].bullet_cooldown
        } by {
            assert(apply_hits(ps, hits, damage)[i] == hit_player(prev[i], hits.last(), damage));
        }
    }
}

/// Over one tick, before anyone is taken out, every player keeps its place,
/// connection and body, and its cooldown goes down by exactly one, not below
/// zero.
pub proof fn lemma_tick_cooldowns(ps: Seq<PhysicsPlayerInfo>, hits: Seq<BodyKey>, damage: u64)
    ensures
        after_hits(ps, hits, damage).len() == ps.len(),
        forall|i: int|
            0 <= i < ps.len() ==> {
                let q = #[trigger] after_hits(ps, hits, damage)[i];
                &&& q.conn == ps[i].conn
                &&& q.body == ps[i].body
                &&& q.bullet_cooldown == if ps[i].bullet_cooldown > 0 {
                    ps[i].bullet_cooldown - 1
                } else {
                    0
                }
            },
{
    lemma_apply_hits_fields(cool_all(ps), hits, damage);
    assert forall|i: int| 0 <= i < ps.len() implies {
        let q = #[trigger] after_hits(ps, hits, damage)[i];
        &&& q.conn == ps[i].conn
        &&& q.body == ps[i].body
        &&& q.bullet_cooldown == if ps[i].bullet_cooldown > 0 {
            ps[i].bullet_cooldown - 1
        } else {
            0
        }
    } by {
        assert(cool_all(ps)[i] == cooled_down(ps[i]));
    }
}

/// After a tick the connections with a player are those that had one before,
/// less those taken out at the health floor; and no connection taken out is
/// still playing, so it is told of its game over once.
pub proof fn lemma_tick_player_ids(ps: Seq<PhysicsPlayerInfo>, hits: Seq<BodyKey>, damage: u64)
    requires
        conns(ps).no_duplicates(),
    ensures
        player_ids(survivors(after_hits(ps, hits, damage))) == player_ids(ps).difference(
            player_ids(eliminated(after_hits(ps, hits, damage))),
        ),
        forall|c: u64|
            #[trigger] player_ids(eliminated(after_hits(ps, hits, damage))).contains(c)
                ==> !player_ids(survivors(after_hits(ps, hits, damage))).contains(c),
{
    let d = after_hits(ps, hits, damage);
    lemma_tick_cooldowns(ps, hits, damage);
    assert(conns(d) =~= conns(ps));
    let surv = survivors(d);
    let elim = eliminated(d);
    assert forall|c: u64| #[trigger] player_ids(surv).contains(c) implies player_ids(ps).contains(c)
        && !player_ids(elim).contains(c) by {
        let k = choose|k: int| 0 <= k < conns(surv).len() && conns(surv)[k] == c;
        let x = surv[k];
        assert(surv.contains(x));
        assert(d.contains(x) && x.health > HEALTH_FLOOR);
        let a = choose|a: int| 0 <= a < d.len() && d[a] == x;
        assert(conns(d)[a] == c);
        if player_ids(elim).contains(c) {
            let m = choose|m: int| 0 <= m < conns(elim).len() && conns(elim)[m] == c;
            let y = elim[m];
            assert(elim.contains(y));
            assert(d.contains(y) && y.health <= HEALTH_FLOOR);
            let b = choose|b: int| 0 <= b < d.len() && d[b] == y;
            assert(conns(d)[b] == c);
        }
    }
    assert forall|c: u64|
        player_ids(ps).contains(c) && !player_ids(elim).contains(c) implies #[trigger] player_ids(
        surv,
    ).contains(c) by {
        let k = choose|k: int| 0 <= k < conns(ps).len() && conns(ps)[k] == c;
        assert(conns(d)[k] == c);
        let x = d[k];
        if x.health <= HEALTH_FLOOR {
            assert(elim.contains(x));
            let m = choose|m: int| 0 <= m < elim.len() && elim[m] == x;
            assert(conns(elim)[m] == c);
        } else {
            assert(surv.contains(x));
            let m = choose|m: int| 0 <= m < surv.len() && surv[m] == x;
            assert(conns(surv)[m] == c);
        }
    }
    assert(player_ids(surv) =~= player_ids(ps).difference(player_ids(elim)));
}

/// The bullets left after `n` ticks, when none is added meanwhile.
pub open spec fn bullets_after(bs: Seq<BulletEntity>, n: nat) -> Seq<BulletEntity>
    decreases n,
{
    if n == 0 {
        bs
    } else {
        next_bullets(bullets_after(bs, (n - 1) as nat))
    }
}

/// A bullet is aged by one on every tick it survives and never outlives the
/// maximum age: whatever bullets exist now are all gone after
/// `MAX_BULLET_AGE + 1` ticks.
pub proof fn lemma_bullet_lifetime(bs: Seq<BulletEntity>, n: nat)
    requires
        forall|i: int| 0 <= i < bs.len() ==> #[trigger] bs[i].age <= MAX_BULLET_AGE,
    ensures
        forall|i: int| 0 <= i < bullets_after(bs, n).len() ==> {
            let b = #[trigger] bullets_after(bs, n)[i];
            &&& b.age >= n
            &&& b.age <= MAX_BULLET_AGE
        },
        n > MAX_BULLET_AGE ==> bullets_after(bs, n).len() == 0,
    decreases n,
{
    if n > 0 {
        lemma_bullet_lifetime(bs, (n - 1) as nat);
        let prev = bullets_after(bs, (n - 1) as nat);
        let aged_prev = prev.map_values(|b: BulletEntity| BulletEntity { body: b.body, age: (b.age + 1) as u32 });
        assert forall|i: int| 0 <= i < bullets_after(bs, n).len() implies {
            let b = #[trigger] bullets_after(bs, n)[i];
            &&& b.age >= n
            &&& b.age <= MAX_BULLET_AGE
        } by {
            let b = bullets_after(bs, n)[i];
            assert(bullets_after(bs, n).contains(b));
            assert(aged_prev.contains(b) && b.age <= MAX_BULLET_AGE);
            let k = choose|k: int| 0 <= k < aged_prev.len() && aged_prev[k] == b;
            assert(prev[k].age >= n - 1);
        }
    }
    if n > MAX_BULLET_AGE && bullets_after(bs, n).len() > 0 {
        assert(bullets_after(bs, n)[0].age >= n);
    }
}

/// Movement impulses lie along the arena axes: each has one zero component
/// and the other of length one, and which ones are applied depends on the
/// movement flags alone, not on the aim.
pub proof fn lemma_moves_axis_aligned(up: bool, left: bool, down: bool, right: bool)
    ensures
        forall|i: int|
            0 <= i < moves_of(up, left, down, right).len() ==> {
                let u = (#[trigger] moves_of(up, left, down, right)[i]).spec_unit();
                (u.0 == 0 && (u.1 == 1 || u.1 == -1)) || (u.1 == 0 && (u.0 == 1 || u.0 == -1))
            },
        moves_of(up, false, false, false) == (if up { seq![MoveDirection::Up] } else { seq![] }),
{
    assert(moves_of(up, false, false, false) =~= (if up { seq![MoveDirection::Up] } else { seq![] }));
}

} // verus!
