//! What holds of every pool: where launches land, what a burst leaves
//! behind, and how far a tick moves the cursor.

use vstd::prelude::*;
use crate::group::{
    lemma_advanced_wf, lemma_burst_wf, lemma_placed_all_wf, Color, GroupView, BURST_SIZE,
    MAX_PARTICLES_COLOR,
};
use crate::particle::{Particle, DESCENT_THRESHOLD};
use crate::vector::Vector;

verus! {

/// The slot that lies `k` launches after `start`.
pub open spec fn slot_after(start: int, k: int) -> int {
    (start + k) % (MAX_PARTICLES_COLOR as int)
}

/// After any number of launches the cursor has moved by that number of
/// slots, around the ring.
pub proof fn lemma_launches_move_cursor(pool: GroupView, ps: Seq<Particle>)
    requires
        pool.wf(),
    ensures
        pool.placed_all(ps).write_cursor == slot_after(pool.write_cursor, ps.len() as int),
        pool.placed_all(ps).color == pool.color,
    decreases ps.len(),
{
    if ps.len() > 0 {
        lemma_launches_move_cursor(pool, ps.drop_last());
    }
}

/// A launched particle stays in its slot, drawn at its place, until
/// `MAX_PARTICLES_COLOR` further launches have been made: of the launches
/// `ps`, the one at index `j` is found `j` slots after the cursor's first
/// place if fewer than `MAX_PARTICLES_COLOR` launches followed it.
pub proof fn lemma_launch_stays(pool: GroupView, ps: Seq<Particle>, j: int)
    requires
        pool.wf(),
        0 <= j < ps.len(),
        ps.len() - j <= MAX_PARTICLES_COLOR,
    ensures
        pool.placed_all(ps).particles[slot_after(pool.write_cursor, j)] == ps[j],
        pool.placed_all(ps).coordinates[slot_after(pool.write_cursor, j)] == GroupView::drawn_at(
            ps[j],
        ),
    decreases ps.len(),
{
    let earlier = ps.drop_last();
    lemma_launches_move_cursor(pool, earlier);
    lemma_placed_all_wf(pool, earlier);
    if j < ps.len() - 1 {
        lemma_launch_stays(pool, earlier, j);
    }
}

/// A slot that the cursor does not reach keeps what it held: launches
/// numbering `ps.len()`, fewer than there are slots, leave the slot `k`
/// places after the cursor alone if `k` is at least `ps.len()`.
pub proof fn lemma_launches_spare(pool: GroupView, ps: Seq<Particle>, k: int)
    requires
        pool.wf(),
        ps.len() <= k < MAX_PARTICLES_COLOR,
    ensures
        pool.placed_all(ps).particles[slot_after(pool.write_cursor, k)] == pool.particles[slot_after(
            pool.write_cursor,
            k,
        )],
        pool.placed_all(ps).coordinates[slot_after(pool.write_cursor, k)]
            == pool.coordinates[slot_after(pool.write_cursor, k)],
    decreases ps.len(),
{
    if ps.len() > 0 {
        let earlier = ps.drop_last();
        lemma_launches_move_cursor(pool, earlier);
        lemma_placed_all_wf(pool, earlier);
        lemma_launches_spare(pool, earlier, k);
    }
}

/// The ring wraps around: of `MAX_PARTICLES_COLOR + 1` launches the last
/// takes the slot that the first took, so in a fresh pool slot 0 ends up
/// with the last of them.
pub proof fn lemma_ring_wraps(pool: GroupView, ps: Seq<Particle>)
    requires
        pool.wf(),
        ps.len() == MAX_PARTICLES_COLOR + 1,
    ensures
        pool.placed_all(ps.take(1)).particles[pool.write_cursor] == ps[0],
        pool.placed_all(ps).particles[pool.write_cursor] == ps[MAX_PARTICLES_COLOR as int],
        pool.placed_all(ps).write_cursor == GroupView::next_slot(pool.write_cursor),
{
    lemma_launch_stays(pool, ps.take(1), 0);
    lemma_launch_stays(pool, ps, MAX_PARTICLES_COLOR as int);
    lemma_launches_move_cursor(pool, ps);
}

/// A pool loses nothing while it is not overrun: after at most
/// `MAX_PARTICLES_COLOR` launches every one of them is still in its slot,
/// and no two of them share a slot.
pub proof fn lemma_no_launch_is_lost(pool: GroupView, ps: Seq<Particle>)
    requires
        pool.wf(),
        ps.len() <= MAX_PARTICLES_COLOR,
    ensures
        forall|j: int|
            0 <= j < ps.len() ==> pool.placed_all(ps).particles[#[trigger] slot_after(
                pool.write_cursor,
                j,
            )] == ps[j],
        forall|j: int, k: int|
            0 <= j < k < ps.len() ==> slot_after(pool.write_cursor, j) != slot_after(
                pool.write_cursor,
                k,
            ),
{
    assert forall|j: int| 0 <= j < ps.len() implies pool.placed_all(ps).particles[#[trigger] slot_after(
        pool.write_cursor,
        j,
    )] == ps[j] by {
        lemma_launch_stays(pool, ps, j);
    }
}

/// Until the ring has wrapped, a launch replaces only what the pool held
/// before: of the launches `ps`, the one at index `j`, if fewer than
/// `MAX_PARTICLES_COLOR` came before it, lands in a slot that none of the
/// earlier ones has written.
pub proof fn lemma_launch_replaces_old(pool: GroupView, ps: Seq<Particle>, j: int)
    requires
        pool.wf(),
        0 <= j < ps.len(),
        j < MAX_PARTICLES_COLOR,
    ensures
        pool.placed_all(ps.take(j)).write_cursor == slot_after(pool.write_cursor, j),
        pool.placed_all(ps.take(j)).particles[slot_after(pool.write_cursor, j)]
            == pool.particles[slot_after(pool.write_cursor, j)],
{
    lemma_launches_move_cursor(pool, ps.take(j));
    lemma_launches_spare(pool, ps.take(j), j);
}

/// A burst moves the cursor by the number of its velocities, around the
/// ring.
pub proof fn lemma_burst_moves_cursor(pool: GroupView, i: int, velocities: Seq<Vector>)
    requires
        pool.wf(),
        0 <= i < MAX_PARTICLES_COLOR,
    ensures
        pool.burst(i, velocities).wf(),
        pool.burst(i, velocities).write_cursor == slot_after(
            pool.write_cursor,
            velocities.len() as int,
        ),
{
    lemma_burst_wf(pool, i, velocities);
    lemma_launches_move_cursor(
        pool,
        GroupView::fragments(pool.particles[i].position, velocities),
    );
}

/// What a burst leaves behind: the cursor has moved by the number of
/// velocities, the slots it passed hold one fragment each, at the place of
/// the burst and with the velocity drawn for it, and every other slot is as
/// it was. The slot that burst, wherever it lies, is marked as exploded.
pub proof fn lemma_burst_fills(pool: GroupView, i: int, velocities: Seq<Vector>)
    requires
        pool.wf(),
        0 <= i < MAX_PARTICLES_COLOR,
        velocities.len() <= MAX_PARTICLES_COLOR,
    ensures
        pool.burst(i, velocities).wf(),
        pool.burst(i, velocities).write_cursor == slot_after(
            pool.write_cursor,
            velocities.len() as int,
        ),
        forall|k: int|
            0 <= k < velocities.len() ==> (#[trigger] pool.burst(
                i,
                velocities,
            ).particles[slot_after(pool.write_cursor, k)]) == (Particle {
                exploded: slot_after(pool.write_cursor, k) == i,
                ..Particle::launched(true, pool.particles[i].position, velocities[k])
            }),
        forall|k: int|
            velocities.len() <= k < MAX_PARTICLES_COLOR ==> (#[trigger] pool.burst(
                i,
                velocities,
            ).particles[slot_after(pool.write_cursor, k)]) == (Particle {
                exploded: pool.particles[slot_after(pool.write_cursor, k)].exploded || slot_after(
                    pool.write_cursor,
                    k,
                ) == i,
                ..pool.particles[slot_after(pool.write_cursor, k)]
            }),
{
    let fragments = GroupView::fragments(pool.particles[i].position, velocities);
    let filled = pool.placed_all(fragments);
    lemma_burst_wf(pool, i, velocities);
    lemma_placed_all_wf(pool, fragments);
    lemma_launches_move_cursor(pool, fragments);
    assert forall|k: int| 0 <= k < velocities.len() implies (#[trigger] pool.burst(
        i,
        velocities,
    ).particles[slot_after(pool.write_cursor, k)]) == (Particle {
        exploded: slot_after(pool.write_cursor, k) == i,
        ..Particle::launched(true, pool.particles[i].position, velocities[k])
    }) by {
        lemma_launch_stays(pool, fragments, k);
        assert(filled.particles[slot_after(pool.write_cursor, k)] == fragments[k]);
    }
    assert forall|k: int| velocities.len() <= k < MAX_PARTICLES_COLOR implies (#[trigger] pool.burst(
        i,
        velocities,
    ).particles[slot_after(pool.write_cursor, k)]) == (Particle {
        exploded: pool.particles[slot_after(pool.write_cursor, k)].exploded || slot_after(
            pool.write_cursor,
            k,
        ) == i,
        ..pool.particles[slot_after(pool.write_cursor, k)]
    }) by {
        lemma_launches_spare(pool, fragments, k);
        assert(filled.particles[slot_after(pool.write_cursor, k)] == pool.particles[slot_after(
            pool.write_cursor,
            k,
        )]);
    }
}

/// The number of bursts among the first `n` slots' parts of a tick.
pub open spec fn bursts_through(
    pool: GroupView,
    n: nat,
    gravity: Vector,
    draws: Seq<Seq<Vector>>,
) -> nat
    decreases n,
{
    if n == 0 {
        0
    } else {
        let before = pool.ticked_through((n - 1) as nat, gravity, draws);
        bursts_through(pool, (n - 1) as nat, gravity, draws) + if before.advanced(
            n - 1,
            gravity,
        ).due(n - 1) {
            1nat
        } else {
            0nat
        }
    }
}

/// Moving on by `a` slots and then by `b` is moving on by `a + b`.
proof fn lemma_slot_after_adds(start: int, a: int, b: int)
    requires
        a >= 0,
        b >= 0,
        start >= 0,
    ensures
        slot_after(slot_after(start, a), b) == slot_after(start, a + b),
{
}

/// A tick launches `BURST_SIZE` fragments for each of its bursts and
/// nothing else: its cursor ends that many slots further on, around the
/// ring.
pub proof fn lemma_tick_launches(
    pool: GroupView,
    n: nat,
    gravity: Vector,
    draws: Seq<Seq<Vector>>,
)
    requires
        pool.wf(),
        n <= MAX_PARTICLES_COLOR,
        n <= draws.len(),
        forall|i: int| 0 <= i < n ==> (#[trigger] draws[i]).len() == BURST_SIZE,
    ensures
        pool.ticked_through(n, gravity, draws).wf(),
        pool.ticked_through(n, gravity, draws).write_cursor == slot_after(
            pool.write_cursor,
            BURST_SIZE * bursts_through(pool, n, gravity, draws),
        ),
    decreases n,
{
    if n > 0 {
        let earlier = (n - 1) as nat;
        lemma_tick_launches(pool, earlier, gravity, draws);
        let before = pool.ticked_through(earlier, gravity, draws);
        let count = bursts_through(pool, earlier, gravity, draws);
        let moved = before.advanced(n - 1, gravity);
        let after = pool.ticked_through(n, gravity, draws);
        assert(after == before.stepped(n - 1, gravity, draws[n - 1]));
        assert(moved.wf() && moved.write_cursor == before.write_cursor) by {
            lemma_advanced_wf(before, n - 1, gravity);
        }
        if moved.due(n - 1) {
            assert(after == moved.burst(n - 1, draws[n - 1]));
            assert(bursts_through(pool, n, gravity, draws) == count + 1);
            assert(after.wf() && after.write_cursor == slot_after(
                moved.write_cursor,
                BURST_SIZE as int,
            )) by {
                lemma_burst_moves_cursor(moved, n - 1, draws[n - 1]);
            }
            assert(after.write_cursor == slot_after(
                pool.write_cursor,
                BURST_SIZE * (count + 1),
            )) by {
                lemma_slot_after_adds(pool.write_cursor, BURST_SIZE * count, BURST_SIZE as int);
            }
        } else {
            assert(after == moved);
            assert(bursts_through(pool, n, gravity, draws) == count);
        }
    }
}

/// The burst is a latch: a slot whose particle has exploded does not burst
/// when it is stepped again. Its part of a tick launches nothing, whatever
/// velocities are on offer, and the slot still holds an exploded particle.
pub proof fn lemma_exploded_slot_stays_quiet(
    pool: GroupView,
    i: int,
    gravity: Vector,
    velocities: Seq<Vector>,
)
    requires
        pool.wf(),
        0 <= i < MAX_PARTICLES_COLOR,
        pool.particles[i].exploded,
    ensures
        !pool.advanced(i, gravity).due(i),
        pool.stepped(i, gravity, velocities) == pool.advanced(i, gravity),
        pool.stepped(i, gravity, velocities).write_cursor == pool.write_cursor,
        pool.stepped(i, gravity, velocities).particles[i].exploded,
        forall|j: int|
            0 <= j < MAX_PARTICLES_COLOR && j != i ==> #[trigger] pool.stepped(
                i,
                gravity,
                velocities,
            ).particles[j] == pool.particles[j],
{
}

/// A slot that has just burst holds an exploded particle, so that by
/// `lemma_exploded_slot_stays_quiet` it does not burst again.
pub proof fn lemma_burst_latches(pool: GroupView, i: int, velocities: Seq<Vector>)
    requires
        pool.wf(),
        0 <= i < MAX_PARTICLES_COLOR,
    ensures
        pool.burst(i, velocities).particles[i].exploded,
        !pool.burst(i, velocities).due(i),
{
    lemma_placed_all_wf(pool, GroupView::fragments(pool.particles[i].position, velocities));
}

/// The number of launches after which the cursor reaches `slot`.
pub open spec fn launches_until(cursor: int, slot: int) -> int {
    (slot - cursor) % (MAX_PARTICLES_COLOR as int)
}

/// The life of a rocket, as its slot's part of a tick carries it on. While
/// the rocket has not begun to fall it flies on, is drawn where it is, and
/// nothing is launched. Once it has begun to fall it retires where it is
/// and bursts in that same step: the cursor moves by one slot for each
/// velocity, and the rocket, if the burst did not reach its own slot, is
/// left retired, exploded and drawn off the canvas.
pub proof fn lemma_rocket_step(pool: GroupView, i: int, gravity: Vector, velocities: Seq<Vector>)
    requires
        pool.wf(),
        0 <= i < MAX_PARTICLES_COLOR,
        !pool.particles[i].is_sub,
        pool.particles[i].alive,
        !pool.particles[i].exploded,
        velocities.len() <= MAX_PARTICLES_COLOR,
    ensures
        pool.particles[i].velocity.y > DESCENT_THRESHOLD ==> {
            &&& pool.stepped(i, gravity, velocities) == pool.advanced(i, gravity)
            &&& pool.stepped(i, gravity, velocities).write_cursor == pool.write_cursor
            &&& pool.stepped(i, gravity, velocities).particles[i] == pool.particles[i].ticked(
                gravity,
            )
            &&& pool.stepped(i, gravity, velocities).particles[i].alive
            &&& pool.stepped(i, gravity, velocities).coordinates[i] == GroupView::drawn_at(
                pool.particles[i].ticked(gravity),
            )
        },
        pool.particles[i].velocity.y <= DESCENT_THRESHOLD ==> {
            &&& pool.stepped(i, gravity, velocities) == pool.advanced(i, gravity).burst(
                i,
                velocities,
            )
            &&& pool.stepped(i, gravity, velocities).write_cursor == slot_after(
                pool.write_cursor,
                velocities.len() as int,
            )
            &&& velocities.len() <= launches_until(pool.write_cursor, i) ==> {
                &&& pool.stepped(i, gravity, velocities).particles[i] == (Particle {
                    alive: false,
                    exploded: true,
                    ..pool.particles[i].pushed(gravity)
                })
                &&& pool.stepped(i, gravity, velocities).coordinates[i] == (
                    crate::group::OFF_CANVAS,
                    crate::group::OFF_CANVAS,
                )
            }
        },
{
    let moved = pool.advanced(i, gravity);
    lemma_advanced_wf(pool, i, gravity);
    if pool.particles[i].velocity.y <= DESCENT_THRESHOLD {
        assert(moved.due(i));
        lemma_burst_moves_cursor(moved, i, velocities);
        let reach = launches_until(pool.write_cursor, i);
        if velocities.len() <= reach {
            let fragments = GroupView::fragments(moved.particles[i].position, velocities);
            assert(slot_after(moved.write_cursor, reach) == i);
            lemma_launches_spare(moved, fragments, reach);
            lemma_placed_all_wf(moved, fragments);
        }
    }
}

/// Whether a step leaves `p` without a burst: `p` is a fragment, has
/// exploded already, or is a rocket that has not begun to fall.
pub open spec fn is_quiet(p: Particle) -> bool {
    p.is_sub || p.exploded || (p.alive && p.velocity.y > DESCENT_THRESHOLD)
}

/// A tick launches nothing unless a rocket retires: if every slot is
/// quiet, the first `n` slots' parts of a tick move those slots one step
/// each and change nothing else, whatever velocities are on offer.
pub proof fn lemma_quiet_tick(pool: GroupView, n: nat, gravity: Vector, draws: Seq<Seq<Vector>>)
    requires
        pool.wf(),
        n <= MAX_PARTICLES_COLOR,
        forall|i: int| 0 <= i < MAX_PARTICLES_COLOR ==> is_quiet(#[trigger] pool.particles[i]),
    ensures
        pool.ticked_through(n, gravity, draws).wf(),
        pool.ticked_through(n, gravity, draws).write_cursor == pool.write_cursor,
        bursts_through(pool, n, gravity, draws) == 0,
        forall|i: int|
            0 <= i < n ==> (#[trigger] pool.ticked_through(n, gravity, draws).particles[i])
                == pool.particles[i].ticked(gravity),
        forall|i: int|
            0 <= i < n ==> (#[trigger] pool.ticked_through(n, gravity, draws).coordinates[i])
                == GroupView::drawn_at(pool.particles[i].ticked(gravity)),
        forall|i: int|
            n <= i < MAX_PARTICLES_COLOR ==> (#[trigger] pool.ticked_through(
                n,
                gravity,
                draws,
            ).particles[i]) == pool.particles[i],
        forall|i: int|
            n <= i < MAX_PARTICLES_COLOR ==> (#[trigger] pool.ticked_through(
                n,
                gravity,
                draws,
            ).coordinates[i]) == pool.coordinates[i],
    decreases n,
{
    if n > 0 {
        let earlier = (n - 1) as nat;
        lemma_quiet_tick(pool, earlier, gravity, draws);
        let before = pool.ticked_through(earlier, gravity, draws);
        lemma_advanced_wf(before, n - 1, gravity);
        assert(before.particles[n - 1] == pool.particles[n - 1]);
        assert(is_quiet(pool.particles[n - 1]));
        assert(!before.advanced(n - 1, gravity).due(n - 1));
        assert(pool.ticked_through(n, gravity, draws) == before.advanced(n - 1, gravity));
    }
}

/// A pool into which nothing has been launched stays as it is through any
/// number of ticks, but for the force that gathers on its vacant slots:
/// a tick of a pool whose slots all hold exploded particles launches
/// nothing and leaves every slot exploded.
pub proof fn lemma_spent_pool_stays_spent(pool: GroupView, gravity: Vector, draws: Seq<Seq<Vector>>)
    requires
        pool.wf(),
        forall|i: int| 0 <= i < MAX_PARTICLES_COLOR ==> (#[trigger] pool.particles[i]).exploded,
    ensures
        pool.ticked_through(MAX_PARTICLES_COLOR as nat, gravity, draws).write_cursor
            == pool.write_cursor,
        forall|i: int|
            0 <= i < MAX_PARTICLES_COLOR ==> (#[trigger] pool.ticked_through(
                MAX_PARTICLES_COLOR as nat,
                gravity,
                draws,
            ).particles[i]).exploded,
{
    lemma_quiet_tick(pool, MAX_PARTICLES_COLOR as nat, gravity, draws);
}

/// Whether the pool has room for `k` launches: none of the next `k` slots
/// from the cursor on holds a live particle.
pub open spec fn has_room(pool: GroupView, k: int) -> bool {
    forall|j: int|
        0 <= j < k ==> !pool.particles[#[trigger] slot_after(pool.write_cursor, j)].alive
}

/// A pool into which nothing has been launched has room for as many
/// launches as it has slots.
pub proof fn lemma_fresh_pool_is_all_room(color: Color)
    ensures
        GroupView::fresh(color).wf(),
        has_room(GroupView::fresh(color), MAX_PARTICLES_COLOR as int),
{
    let pool = GroupView::fresh(color);
    assert forall|i: int| 0 <= i < MAX_PARTICLES_COLOR implies pool.in_sync(i) by {}
}

/// A launch into a pool with room overwrites no live particle and uses up
/// room for one launch.
pub proof fn lemma_launch_uses_room(pool: GroupView, p: Particle, k: int)
    requires
        pool.wf(),
        1 <= k <= MAX_PARTICLES_COLOR,
        has_room(pool, k),
    ensures
        !pool.particles[pool.write_cursor].alive,
        has_room(pool.placed(p), k - 1),
{
    assert(slot_after(pool.write_cursor, 0) == pool.write_cursor);
    let after = pool.placed(p);
    assert forall|j: int| 0 <= j < k - 1 implies !after.particles[#[trigger] slot_after(
        after.write_cursor,
        j,
    )].alive by {
        assert(slot_after(after.write_cursor, j) == slot_after(pool.write_cursor, j + 1));
    }
}

/// Steps use up no room: a step of a slot makes no retired particle live.
pub proof fn lemma_step_keeps_room(pool: GroupView, i: int, gravity: Vector, k: int)
    requires
        pool.wf(),
        0 <= i < MAX_PARTICLES_COLOR,
        has_room(pool, k),
    ensures
        has_room(pool.advanced(i, gravity), k),
{
    let after = pool.advanced(i, gravity);
    assert forall|j: int| 0 <= j < k implies !after.particles[#[trigger] slot_after(
        after.write_cursor,
        j,
    )].alive by {
        assert(!pool.particles[slot_after(pool.write_cursor, j)].alive);
    }
}

/// Launches into a pool with room for them overwrite no live particle and
/// use up room for one launch each.
pub proof fn lemma_launches_use_room(pool: GroupView, ps: Seq<Particle>, k: int)
    requires
        pool.wf(),
        ps.len() <= k <= MAX_PARTICLES_COLOR,
        has_room(pool, k),
    ensures
        pool.placed_all(ps).wf(),
        has_room(pool.placed_all(ps), k - ps.len()),
        forall|j: int|
            0 <= j < ps.len() ==> !(#[trigger] pool.placed_all(ps.take(j))).particles[pool.placed_all(
                ps.take(j),
            ).write_cursor].alive,
    decreases ps.len(),
{
    lemma_placed_all_wf(pool, ps);
    if ps.len() > 0 {
        let earlier = ps.drop_last();
        lemma_launches_use_room(pool, earlier, k);
        lemma_placed_all_wf(pool, earlier);
        lemma_launch_uses_room(pool.placed_all(earlier), ps.last(), k - earlier.len());
        assert forall|j: int| 0 <= j < ps.len() implies !(#[trigger] pool.placed_all(
            ps.take(j),
        )).particles[pool.placed_all(ps.take(j)).write_cursor].alive by {
            if j < earlier.len() {
                assert(ps.take(j) =~= earlier.take(j));
            } else {
                assert(ps.take(j) =~= earlier);
            }
        }
    }
}

/// A burst in a pool with room for its fragments uses up room for one
/// launch for each of them.
pub proof fn lemma_burst_uses_room(pool: GroupView, i: int, velocities: Seq<Vector>, k: int)
    requires
        pool.wf(),
        0 <= i < MAX_PARTICLES_COLOR,
        velocities.len() <= k <= MAX_PARTICLES_COLOR,
        has_room(pool, k),
    ensures
        pool.burst(i, velocities).wf(),
        has_room(pool.burst(i, velocities), k - velocities.len()),
{
    let fragments = GroupView::fragments(pool.particles[i].position, velocities);
    let filled = pool.placed_all(fragments);
    lemma_burst_wf(pool, i, velocities);
    lemma_launches_use_room(pool, fragments, k);
    let after = pool.burst(i, velocities);
    assert forall|j: int| 0 <= j < k - velocities.len() implies !after.particles[#[trigger] slot_after(
        after.write_cursor,
        j,
    )].alive by {
        assert(!filled.particles[slot_after(filled.write_cursor, j)].alive);
    }
}

/// A pool is never overrun while the launches of its lifetime number no
/// more than it has room for: a tick whose bursts fit into the room that
/// is left overwrites no live particle, and leaves room for as many
/// launches as it has not made.
pub proof fn lemma_tick_uses_room(
    pool: GroupView,
    n: nat,
    gravity: Vector,
    draws: Seq<Seq<Vector>>,
    k: int,
)
    requires
        pool.wf(),
        n <= MAX_PARTICLES_COLOR,
        n <= draws.len(),
        forall|i: int| 0 <= i < n ==> (#[trigger] draws[i]).len() == BURST_SIZE,
        has_room(pool, k),
        BURST_SIZE * bursts_through(pool, n, gravity, draws) <= k <= MAX_PARTICLES_COLOR,
    ensures
        pool.ticked_through(n, gravity, draws).wf(),
        has_room(
            pool.ticked_through(n, gravity, draws),
            k - BURST_SIZE * bursts_through(pool, n, gravity, draws),
        ),
    decreases n,
{
    if n > 0 {
        let earlier = (n - 1) as nat;
        let count = bursts_through(pool, earlier, gravity, draws);
        lemma_tick_uses_room(pool, earlier, gravity, draws, k);
        let before = pool.ticked_through(earlier, gravity, draws);
        let moved = before.advanced(n - 1, gravity);
        lemma_advanced_wf(before, n - 1, gravity);
        lemma_step_keeps_room(before, n - 1, gravity, k - BURST_SIZE * count);
        if moved.due(n - 1) {
            assert(bursts_through(pool, n, gravity, draws) == count + 1);
            lemma_burst_uses_room(moved, n - 1, draws[n - 1], k - BURST_SIZE * count);
        }
    }
}

} // verus!
