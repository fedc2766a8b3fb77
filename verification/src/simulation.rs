//! The tick driver. A world holds the flock, the static geometry, the
//! player and a spawn queue; one tick runs the influence generators to
//! completion, then integration, then the containment check, and finally
//! drains the spawn queue, in that fixed order. Newly spawned agents see
//! only fully updated state, never a partially updated tick.

use vstd::prelude::*;
use crate::barrier::{barrier_wf, Barrier};
use crate::fixed::{DT_LIMIT, MAX_INFLUENCES};
use crate::pen::{pen_contains, pen_wf, Pen};
use crate::player::{player_wf, Player};
use crate::sheep::{
    acc_wf, barrier_entries, integrated_ok, move_sheep, peer_alignment_entries,
    peer_force_entries, player_entries, player_influence, barrier_influence, sheep_influences,
    sheep_spawned, sheep_wf, AccView, Accumulator, Sheep,
};
use crate::sheep::{lemma_barrier_entries_props, lemma_player_entries_props};
use crate::vec2::{in_world, Vec2, V2};

verus! {

/// Most agents one world may hold, spawn queue included.
pub const FLOCK_LIMIT: usize = 30_000;

/// Most barriers one world may hold.
pub const BARRIER_LIMIT: usize = 30_000;

/// The whole simulation state for one round.
pub struct World {
    pub sheep: Vec<Sheep>,
    pub barriers: Vec<Barrier>,
    pub pen: Pen,
    pub player: Player,
    pub spawn_requests: Vec<Vec2>,
}

/// Every part of the world is well-formed and the world is small enough
/// that one tick can accumulate every contribution.
pub open spec fn world_wf(w: World) -> bool {
    &&& w.sheep@.len() + w.spawn_requests@.len() <= FLOCK_LIMIT as int
    &&& w.barriers@.len() <= BARRIER_LIMIT as int
    &&& forall|j: int| 0 <= j < w.sheep@.len() ==> sheep_wf(#[trigger] w.sheep@[j])
    &&& forall|j: int| 0 <= j < w.barriers@.len() ==> barrier_wf(#[trigger] w.barriers@[j])
    &&& pen_wf(w.pen)
    &&& player_wf(w.player)
    &&& forall|j: int| 0 <= j < w.spawn_requests@.len() ==> in_world(#[trigger] w.spawn_requests@[j]@)
}

/// Whether the whole flock is strictly inside the pen.
pub open spec fn all_contained(p: Pen, flock: Seq<Sheep>) -> bool {
    forall|j: int| 0 <= j < flock.len() ==> pen_contains(p, #[trigger] flock[j].position@)
}

/// Everything one tick accumulates for agent `k` before integration:
/// the player contribution, then one contribution per barrier, then the
/// peer contributions, in pass order.
pub open spec fn tick_accumulated(
    flock: Seq<Sheep>,
    barriers: Seq<Barrier>,
    player: V2,
    k: int,
) -> AccView {
    AccView {
        forces: player_entries(flock[k], player) + barrier_entries(
            flock[k],
            barriers,
            barriers.len() as int,
        ) + peer_force_entries(flock, k, flock.len() as int),
        alignment: peer_alignment_entries(flock, k, flock.len() as int),
    }
}

impl World {
    /// A fresh round: static geometry and the player, no sheep yet.
    pub fn new(barriers: Vec<Barrier>, pen: Pen, player: Player) -> (w: World)
        requires
            barriers@.len() <= BARRIER_LIMIT,
            forall|j: int| 0 <= j < barriers@.len() ==> barrier_wf(#[trigger] barriers@[j]),
            pen_wf(pen),
            player_wf(player),
        ensures
            w.barriers == barriers,
            w.pen == pen,
            w.player == player,
            w.sheep@.len() == 0,
            w.spawn_requests@.len() == 0,
            world_wf(w),
    {
        World { sheep: Vec::new(), barriers, pen, player, spawn_requests: Vec::new() }
    }

    /// Queue one agent to be spawned at the next tick boundary.
    pub fn push_spawn_request(&mut self, position: Vec2)
        requires
            world_wf(*old(self)),
            in_world(position@),
            old(self).sheep@.len() + old(self).spawn_requests@.len() + 1 <= FLOCK_LIMIT,
        ensures
            final(self).spawn_requests@ == old(self).spawn_requests@.push(position),
            final(self).sheep == old(self).sheep,
            final(self).barriers == old(self).barriers,
            final(self).pen == old(self).pen,
            final(self).player == old(self).player,
            world_wf(*final(self)),
    {
        self.spawn_requests.push(position);
    }
}

/// Whether every sheep is inside the pen: the win condition.
pub fn check_win(pen: &Pen, sheep: &Vec<Sheep>) -> (won: bool)
    requires
        pen_wf(*pen),
        forall|j: int| 0 <= j < sheep@.len() ==> sheep_wf(#[trigger] sheep@[j]),
    ensures
        won == all_contained(*pen, sheep@),
{
    let n = sheep.len();
    let mut k: usize = 0;
    while k < n
        invariant
            n == sheep@.len(),
            k <= n,
            pen_wf(*pen),
            forall|j: int| 0 <= j < n ==> sheep_wf(#[trigger] sheep@[j]),
            forall|j: int| 0 <= j < k ==> pen_contains(*pen, #[trigger] sheep@[j].position@),
        decreases n - k,
    {
        let s = sheep[k];
        if !pen.contains(s.position) {
            return false;
        }
        k = k + 1;
    }
    true
}

/// One simulation tick. The influence generators all run to completion,
/// then the integrator updates every agent, then containment is checked
/// against the updated positions, and finally the spawn queue is drained
/// into new agents. Returns whether the flock was fully contained.
pub fn tick(world: &mut World, dt: i64) -> (contained: bool)
    requires
        world_wf(*old(world)),
        0 <= dt <= DT_LIMIT,
    ensures
        world_wf(*final(world)),
        final(world).barriers@ == old(world).barriers@,
        final(world).pen == old(world).pen,
        final(world).player == old(world).player,
        final(world).spawn_requests@.len() == 0,
        final(world).sheep@.len() == old(world).sheep@.len() + old(world).spawn_requests@.len(),
        forall|k: int|
            0 <= k < old(world).sheep@.len() ==> integrated_ok(
                old(world).sheep@[k],
                tick_accumulated(
                    old(world).sheep@,
                    old(world).barriers@,
                    old(world).player.position@,
                    k,
                ),
                dt as int,
                #[trigger] final(world).sheep@[k],
            ),
        forall|i: int|
            0 <= i < old(world).spawn_requests@.len() ==> sheep_spawned(
                #[trigger] final(world).sheep@[old(world).sheep@.len() + i],
                old(world).spawn_requests@[i],
            ),
        contained == all_contained(
            old(world).pen,
            final(world).sheep@.take(old(world).sheep@.len() as int),
        ),
        dt == 0 ==> forall|k: int|
            0 <= k < old(world).sheep@.len() ==> #[trigger] final(world).sheep@[k].position == old(
                world,
            ).sheep@[k].position && final(world).sheep@[k].momentum == old(world).sheep@[k].momentum,
{
    let ghost flock0 = world.sheep@;
    let ghost spawns0 = world.spawn_requests@;
    let ghost barriers0 = world.barriers@;
    let ghost pen0 = world.pen;
    let ghost player0 = world.player;
    let n = world.sheep.len();

    // Fresh, empty accumulators, one per agent.
    let mut acc: Vec<Accumulator> = Vec::new();
    while acc.len() < n
        invariant
            acc@.len() <= n,
            forall|j: int|
                0 <= j < acc@.len() ==> #[trigger] acc@[j]@.forces =~= Seq::<V2>::empty()
                    && acc@[j]@.alignment =~= Seq::<V2>::empty() && acc_wf(acc@[j]@),
        decreases n - acc.len(),
    {
        acc.push(Accumulator::new());
    }

    // Influence generation, in pass order; each pass only appends.
    player_influence(&world.sheep, world.player.position, &mut acc);
    proof {
        assert forall|j: int| 0 <= j < n implies acc_wf(#[trigger] acc@[j]@)
            && acc@[j]@.forces.len() + world.barriers@.len() <= MAX_INFLUENCES as int by {
            lemma_player_entries_props(world.sheep@[j], world.player.position@);
        }
    }
    barrier_influence(&world.sheep, &world.barriers, &mut acc);
    proof {
        assert forall|j: int| 0 <= j < n implies acc_wf(#[trigger] acc@[j]@)
            && acc@[j]@.forces.len() + 2 * world.sheep@.len() <= MAX_INFLUENCES as int
            && acc@[j]@.alignment.len() + world.sheep@.len() <= MAX_INFLUENCES as int by {
            lemma_player_entries_props(world.sheep@[j], world.player.position@);
            lemma_barrier_entries_props(world.sheep@[j], world.barriers@,
                world.barriers@.len() as int);
        }
    }
    sheep_influences(&world.sheep, &mut acc);
    proof {
        assert forall|j: int| 0 <= j < n implies #[trigger] acc@[j]@ == tick_accumulated(
            flock0,
            world.barriers@,
            world.player.position@,
            j,
        ) by {
            assert(acc@[j]@.forces =~= tick_accumulated(
                flock0,
                world.barriers@,
                world.player.position@,
                j,
            ).forces);
            assert(acc@[j]@.alignment =~= tick_accumulated(
                flock0,
                world.barriers@,
                world.player.position@,
                j,
            ).alignment);
        }
    }

    // Integration: every accumulator is drained and cleared.
    move_sheep(&mut world.sheep, &mut acc, dt);

    // Containment over the fully integrated positions.
    let contained = check_win(&world.pen, &world.sheep);
    let ghost integrated = world.sheep@;

    // Drain the spawn queue, strictly after the containment check.
    let mut i: usize = 0;
    let spawn_count = world.spawn_requests.len();
    while i < spawn_count
        invariant
            spawn_count == spawns0.len(),
            world.spawn_requests@ == spawns0,
            i <= spawn_count,
            world.sheep@.len() == integrated.len() + i,
            integrated.len() == n,
            n + spawn_count <= FLOCK_LIMIT,
            forall|j: int| 0 <= j < n ==> #[trigger] world.sheep@[j] == integrated[j],
            forall|j: int| 0 <= j < n ==> sheep_wf(#[trigger] integrated[j]),
            forall|j: int| 0 <= j < spawns0.len() ==> in_world(#[trigger] spawns0[j]@),
            forall|j: int|
                n <= j < n + i ==> sheep_spawned(#[trigger] world.sheep@[j], spawns0[j - n])
                    && sheep_wf(world.sheep@[j]),
            world.barriers@ == barriers0,
            world.pen == pen0,
            world.player == player0,
            forall|j: int| 0 <= j < barriers0.len() ==> barrier_wf(#[trigger] barriers0[j]),
        decreases spawn_count - i,
    {
        let p = world.spawn_requests[i];
        let lamb = Sheep::new(p);
        world.sheep.push(lamb);
        i = i + 1;
    }
    world.spawn_requests.clear();
    proof {
        assert(world.sheep@.take(n as int) =~= integrated);
    }
    contained
}

} // verus!
