use vstd::prelude::*;

use crate::actor::{Enemy, Player, Velocity};
use crate::config::{BOUNCE_SPEED, MAX_SPEED, STOMP_TOLERANCE};
use crate::grid::Rect;
use crate::world::{PhysicsWorld, WorldView};

verus! {

/// How a touch between the player and an enemy is judged.
#[derive(Clone, Copy, Debug, PartialEq, Eq, Structural)]
pub enum Contact {
    /// The player lands on the enemy and kills it.
    Stomp,
    /// The enemy kills the player.
    Fatal,
}

/// A touch is a stomp when the player is falling and its bottom edge is at
/// most `STOMP_TOLERANCE` pixels below the enemy's top edge.
pub open spec fn is_stomp(player_bottom: int, enemy_top: int, player_vy: int) -> bool {
    player_vy > 0 && player_bottom <= enemy_top + STOMP_TOLERANCE
}

pub fn classify_contact(player_bottom: i64, enemy_top: i64, player_vy: i64) -> (c: Contact)
    requires
        enemy_top <= i64::MAX - STOMP_TOLERANCE,
    ensures
        (c == Contact::Stomp) == is_stomp(player_bottom as int, enemy_top as int, player_vy as int),
{
    if player_vy > 0 && player_bottom <= enemy_top + STOMP_TOLERANCE {
        Contact::Stomp
    } else {
        Contact::Fatal
    }
}

/// The state of the encounter pass after some enemies have been judged.
pub struct Encounter {
    pub vy: int,
    pub enemies: Seq<Enemy>,
    pub score: int,
    pub over: bool,
}

/// The encounter pass after judging the first `k` enemies, in order, against
/// the player's rectangle `pr`. A living enemy that touches the player is
/// stomped (it dies, the score grows by one, the player bounces up) or is
/// fatal (the run is over and no later enemy is judged).
pub open spec fn encounters(
    w: WorldView,
    pr: Rect,
    vy0: int,
    es: Seq<Enemy>,
    score0: int,
    k: nat,
) -> Encounter
    decreases k,
{
    if k == 0 {
        Encounter { vy: vy0, enemies: es, score: score0, over: false }
    } else {
        let s = encounters(w, pr, vy0, es, score0, (k - 1) as nat);
        let e = s.enemies[k - 1];
        let er = w.bodies[e.collider.index as int].rect();
        if s.over || !e.alive || !pr.spec_overlaps(er) {
            s
        } else if is_stomp(pr.y + pr.h, er.y as int, s.vy) {
            Encounter {
                vy: -BOUNCE_SPEED,
                enemies: s.enemies.update(k - 1, Enemy { alive: false, ..e }),
                score: s.score + 1,
                over: false,
            }
        } else {
            Encounter { over: true, ..s }
        }
    }
}

/// The living enemies of `es`, in their order.
pub open spec fn living(es: Seq<Enemy>) -> Seq<Enemy>
    decreases es.len(),
{
    if es.len() == 0 {
        Seq::empty()
    } else {
        living(es.drop_last()) + if es.last().alive {
            seq![es.last()]
        } else {
            Seq::empty()
        }
    }
}

/// Every enemy handle of `es` names an actor of `w`.
pub open spec fn colliders_valid(w: WorldView, es: Seq<Enemy>) -> bool {
    forall|i: int| 0 <= i < es.len() ==> w.valid_actor(#[trigger] es[i].collider)
}

proof fn lemma_encounters_shape(
    w: WorldView,
    pr: Rect,
    vy0: int,
    es: Seq<Enemy>,
    score0: int,
    k: nat,
)
    requires
        k <= es.len(),
        -MAX_SPEED <= vy0 <= MAX_SPEED,
    ensures
        encounters(w, pr, vy0, es, score0, k).enemies.len() == es.len(),
        score0 <= encounters(w, pr, vy0, es, score0, k).score <= score0 + k,
        -MAX_SPEED <= encounters(w, pr, vy0, es, score0, k).vy <= MAX_SPEED,
        forall|i: int|
            0 <= i < es.len() ==> (#[trigger] encounters(w, pr, vy0, es, score0, k).enemies[i]).collider
                == es[i].collider && encounters(w, pr, vy0, es, score0, k).enemies[i].vel
                == es[i].vel && encounters(w, pr, vy0, es, score0, k).enemies[i].dir
                == es[i].dir,
        forall|i: int|
            k <= i < es.len() ==> #[trigger] encounters(w, pr, vy0, es, score0, k).enemies[i]
                == es[i],
    decreases k,
{
    if k > 0 {
        lemma_encounters_shape(w, pr, vy0, es, score0, (k - 1) as nat);
    }
}

/// Judges every living enemy that touches the player, in order, then removes
/// the dead enemies. Returns whether a touch was fatal.
pub fn resolve_encounters(
    world: &PhysicsWorld,
    player: &mut Player,
    enemies: &mut Vec<Enemy>,
    score: &mut u64,
) -> (game_over: bool)
    requires
        world@.wf(),
        world@.valid_actor(old(player).collider),
        old(player).vel.wf(),
        colliders_valid(world@, old(enemies)@),
        *old(score) + old(enemies)@.len() <= u64::MAX,
    ensures
        ({
            let r = encounters(
                world@,
                world@.bodies[old(player).collider.index as int].rect(),
                old(player).vel.y as int,
                old(enemies)@,
                *old(score) as int,
                old(enemies)@.len(),
            );
            &&& *final(player) == Player {
                vel: Velocity { y: r.vy as i64, ..old(player).vel },
                ..*old(player)
            }
            &&& final(enemies)@ == living(r.enemies)
            &&& *final(score) == r.score
            &&& game_over == r.over
        }),
        final(player).vel.wf(),
        *final(score) <= *old(score) + old(enemies)@.len(),
        *final(score) + final(enemies)@.len() <= *old(score) + living(old(enemies)@).len(),
        colliders_valid(world@, final(enemies)@),
        (forall|i: int| 0 <= i < old(enemies)@.len() ==> (#[trigger] old(enemies)@[i]).wf())
            ==> (forall|i: int| 0 <= i < final(enemies)@.len() ==> (#[trigger] final(enemies)@[i]).wf()),
{
    let ghost w = world@;
    let ghost es0 = enemies@;
    let ghost score0 = *score as int;
    let a = player.collider;
    let ghost pr = w.bodies[a.index as int].rect();
    assert(w.bodies[a.index as int].wf());
    let p = world.actor_pos(a);
    let (pw, ph) = world.actor_size(a);
    let prect = Rect { x: p.x, y: p.y, w: pw, h: ph };
    assert(prect == pr);
    let mut vy = player.vel.y;
    let mut over = false;
    let n = enemies.len();
    let mut i: usize = 0;
    while i < n
        invariant
            w == world@,
            w.wf(),
            n == es0.len(),
            i <= n,
            pr.valid(),
            prect == pr,
            colliders_valid(w, es0),
            score0 + n <= u64::MAX,
            ({
                let s = encounters(w, pr, player.vel.y as int, es0, score0, i as nat);
                &&& s.vy == vy
                &&& s.enemies == enemies@
                &&& s.score == *score
                &&& s.over == over
            }),
            -MAX_SPEED <= old(player).vel.y <= MAX_SPEED,
            player == old(player),
        decreases n - i,
    {
        proof {
            lemma_encounters_shape(w, pr, player.vel.y as int, es0, score0, i as nat);
            lemma_encounters_shape(w, pr, player.vel.y as int, es0, score0, (i + 1) as nat);
        }
        let e = enemies[i];
        assert(e.collider == es0[i as int].collider);
        assert(w.valid_actor(es0[i as int].collider));
        if !over && e.alive {
            assert(w.bodies[e.collider.index as int].wf());
            let ep = world.actor_pos(e.collider);
            let (ew, eh) = world.actor_size(e.collider);
            let erect = Rect { x: ep.x, y: ep.y, w: ew, h: eh };
            if prect.overlaps(&erect) {
                if classify_contact(prect.y + prect.h, erect.y, vy) == Contact::Stomp {
                    enemies.set(i, Enemy { alive: false, ..e });
                    *score = *score + 1;
                    vy = -BOUNCE_SPEED;
                } else {
                    over = true;
                }
            }
        }
        i = i + 1;
    }
    proof {
        lemma_encounters_shape(w, pr, player.vel.y as int, es0, score0, n as nat);
        lemma_encounters_count(w, pr, player.vel.y as int, es0, score0, n as nat);
    }
    *player = Player { vel: Velocity { y: vy, ..player.vel }, ..*player };
    let ghost judged = enemies@;
    let mut kept: Vec<Enemy> = Vec::new();
    let mut j: usize = 0;
    while j < n
        invariant
            j <= n,
            enemies@ == judged,
            judged.len() == n,
            kept@ == living(judged.take(j as int)),
        decreases n - j,
    {
        if enemies[j].alive {
            kept.push(enemies[j]);
        }
        proof {
            assert(judged.take(j + 1).drop_last() == judged.take(j as int));
        }
        j = j + 1;
    }
    proof {
        assert(judged.take(n as int) == judged);
        lemma_living_colliders(w, judged);
        if forall|i: int| 0 <= i < es0.len() ==> (#[trigger] es0[i]).wf() {
            assert forall|i: int| 0 <= i < judged.len() implies (#[trigger] judged[i]).wf() by {
                assert(es0[i].wf());
            }
            lemma_living_wf(judged);
        }
    }
    *enemies = kept;
    over
}

/// Killing one living enemy leaves one fewer living enemy.
proof fn lemma_living_kill(es: Seq<Enemy>, i: int)
    requires
        0 <= i < es.len(),
        es[i].alive,
    ensures
        living(es.update(i, Enemy { alive: false, ..es[i] })).len() + 1 == living(es).len(),
    decreases es.len(),
{
    let u = es.update(i, Enemy { alive: false, ..es[i] });
    if i == es.len() - 1 {
        assert(u.drop_last() == es.drop_last());
    } else {
        assert(u.drop_last() == es.drop_last().update(i, Enemy { alive: false, ..es[i] }));
        lemma_living_kill(es.drop_last(), i);
    }
}

/// Each stomp turns one living enemy into a dead one, so the points scored
/// and the enemies left alive together never outnumber the living enemies
/// judged.
proof fn lemma_encounters_count(
    w: WorldView,
    pr: Rect,
    vy0: int,
    es: Seq<Enemy>,
    score0: int,
    k: nat,
)
    requires
        k <= es.len(),
        -MAX_SPEED <= vy0 <= MAX_SPEED,
    ensures
        encounters(w, pr, vy0, es, score0, k).score - score0 + living(
            encounters(w, pr, vy0, es, score0, k).enemies,
        ).len() <= living(es).len(),
    decreases k,
{
    if k > 0 {
        lemma_encounters_count(w, pr, vy0, es, score0, (k - 1) as nat);
        lemma_encounters_shape(w, pr, vy0, es, score0, (k - 1) as nat);
        let s = encounters(w, pr, vy0, es, score0, (k - 1) as nat);
        let e = s.enemies[k - 1];
        if !s.over && e.alive {
            lemma_living_kill(s.enemies, k - 1);
        }
    }
}

/// `living` keeps at most every enemy.
pub proof fn lemma_living_le(es: Seq<Enemy>)
    ensures
        living(es).len() <= es.len(),
    decreases es.len(),
{
    if es.len() > 0 {
        lemma_living_le(es.drop_last());
    }
}

/// `living` keeps only enemies of the sequence, so well-formed ones.
pub proof fn lemma_living_wf(es: Seq<Enemy>)
    requires
        forall|i: int| 0 <= i < es.len() ==> (#[trigger] es[i]).wf(),
    ensures
        forall|i: int| 0 <= i < living(es).len() ==> (#[trigger] living(es)[i]).wf(),
    decreases es.len(),
{
    if es.len() > 0 {
        let d = es.drop_last();
        lemma_living_wf(d);
        assert(es[es.len() - 1].wf());
        assert forall|i: int| 0 <= i < living(es).len() implies (#[trigger] living(es)[i]).wf() by {
            if i < living(d).len() {
                assert(living(es)[i] == living(d)[i]);
            } else {
                assert(living(es)[i] == es.last());
            }
        }
    }
}

/// What `living` keeps is taken from the sequence, so it names the same actors.
proof fn lemma_living_colliders(w: WorldView, es: Seq<Enemy>)
    requires
        colliders_valid(w, es),
    ensures
        colliders_valid(w, living(es)),
        living(es).len() <= es.len(),
    decreases es.len(),
{
    if es.len() > 0 {
        lemma_living_colliders(w, es.drop_last());
        assert(w.valid_actor(es[es.len() - 1].collider));
    }
}

} // verus!
