//! Sheep agents and the per-tick influence passes. Each pass is a
//! read-only function of the current agent state that appends force
//! contributions to a transient per-agent accumulator; no pass touches
//! positions or momenta.

use vstd::prelude::*;
use vstd::arithmetic::div_mod::lemma_div_basics;
use crate::barrier::{barrier_wf, projected_point_v, Barrier};
use crate::common::{params_wf, ForceParams, MaxSpeed};
use crate::fixed::{
    DAMPING, DAMPING_STABLE_DT, DEAD_ZONE, DT_LIMIT, FORCE_LIMIT, MAX_INFLUENCES, POSITION_LIMIT,
    SCALE, SPEED_LIMIT,
};
use crate::fixed::{
    lemma_mul_fits, lemma_tdiv_bound, lemma_tdiv_up_bound, lemma_tdiv_up_pos, lemma_tdiv_up_zero,
    tdiv, tdiv_up, tdiv128, tdiv128_up,
};
use crate::influence::{
    alignment_sample, alignment_sample_v, cohesion_pull, cohesion_pull_v, inverse_linear_repulsion,
    inverse_linear_repulsion_v, player_repulsion, player_repulsion_v, within_range,
};
use crate::vec2::{
    add_v, clamp_len_v, clamp_length, in_world, len2_v, lemma_len2_component_bound, sub_v, zero_v,
    Vec2, V2,
};

verus! {

/// One simulated sheep: position, persisted momentum, rendered heading,
/// speed limit, and the parameters of the five force kinds it reacts to.
#[derive(Clone, Copy, PartialEq, Eq, Structural)]
pub struct Sheep {
    pub position: Vec2,
    pub momentum: Vec2,
    pub heading: Vec2,
    pub max_speed: MaxSpeed,
    pub player_avoidance: ForceParams,
    pub barrier_avoidance: ForceParams,
    pub separation: ForceParams,
    pub cohesion: ForceParams,
    pub alignment: ForceParams,
}

/// A sheep sits inside the world, within its speed limit, with bounded
/// force parameters. The momentum bound holds after every integration
/// step; forces may exceed it transiently within a tick.
pub open spec fn sheep_wf(s: Sheep) -> bool {
    &&& in_world(s.position@)
    &&& 0 <= s.max_speed.0 <= SPEED_LIMIT as int
    &&& len2_v(s.momentum@) <= s.max_speed.0 * s.max_speed.0
    &&& params_wf(s.player_avoidance)
    &&& params_wf(s.barrier_avoidance)
    &&& params_wf(s.separation)
    &&& params_wf(s.cohesion)
    &&& params_wf(s.alignment)
}

/// A freshly spawned sheep: at rest at its spawn position, with the
/// stock parameters of the flock.
pub open spec fn sheep_spawned(s: Sheep, position: Vec2) -> bool {
    &&& s.position == position
    &&& s.momentum == (Vec2 { x: 0, y: 0 })
    &&& s.heading == (Vec2 { x: 0, y: 0 })
    &&& s.max_speed.0 == 5000
    &&& s.player_avoidance == (ForceParams { strength: 100_000, range: 10_000 })
    &&& s.barrier_avoidance == (ForceParams { strength: 100_000, range: 5_000 })
    &&& s.separation == (ForceParams { strength: 10_000, range: 10_000 })
    &&& s.cohesion == (ForceParams { strength: 5_000, range: 10_000 })
    &&& s.alignment == (ForceParams { strength: 1_000, range: 10_000 })
}

impl Sheep {
    /// A newly spawned sheep at `position`, at rest, with the stock
    /// parameters of the flock.
    pub fn new(position: Vec2) -> (s: Sheep)
        requires
            in_world(position@),
        ensures
            sheep_spawned(s, position),
            sheep_wf(s),
    {
        Sheep {
            position,
            momentum: Vec2 { x: 0, y: 0 },
            heading: Vec2 { x: 0, y: 0 },
            max_speed: MaxSpeed::new(5000),
            player_avoidance: ForceParams::new(100_000, 10_000),
            barrier_avoidance: ForceParams::new(100_000, 5_000),
            separation: ForceParams::new(10_000, 10_000),
            cohesion: ForceParams::new(5_000, 10_000),
            alignment: ForceParams::new(1_000, 10_000),
        }
    }
}

/// Transient force storage for one agent within a tick: the general
/// force contributions, and the alignment samples that the integrator
/// averages instead of summing.
pub struct Accumulator {
    pub forces: Vec<Vec2>,
    pub alignment: Vec<Vec2>,
}

/// Mathematical value of an `Accumulator`.
pub ghost struct AccView {
    pub forces: Seq<V2>,
    pub alignment: Seq<V2>,
}

/// The mathematical values of a list of vectors.
pub open spec fn views(s: Seq<Vec2>) -> Seq<V2> {
    s.map_values(|v: Vec2| v@)
}

impl View for Accumulator {
    type V = AccView;

    open spec fn view(&self) -> AccView {
        AccView { forces: views(self.forces@), alignment: views(self.alignment@) }
    }
}

/// One force contribution within the bound every generator guarantees.
pub open spec fn bounded_entry(v: V2) -> bool {
    &&& -(FORCE_LIMIT as int) <= v.x <= FORCE_LIMIT as int
    &&& -(FORCE_LIMIT as int) <= v.y <= FORCE_LIMIT as int
}

pub open spec fn entries_bounded(s: Seq<V2>) -> bool {
    forall|i: int| 0 <= i < s.len() ==> bounded_entry(#[trigger] s[i])
}

/// Accumulator lists stay short and their entries bounded.
pub open spec fn acc_wf(a: AccView) -> bool {
    &&& a.forces.len() <= MAX_INFLUENCES as int
    &&& a.alignment.len() <= MAX_INFLUENCES as int
    &&& entries_bounded(a.forces)
    &&& entries_bounded(a.alignment)
}

impl Accumulator {
    /// An empty accumulator.
    pub fn new() -> (a: Accumulator)
        ensures
            a@.forces == Seq::<V2>::empty(),
            a@.alignment == Seq::<V2>::empty(),
            acc_wf(a@),
    {
        let a = Accumulator { forces: Vec::new(), alignment: Vec::new() };
        proof {
            assert(a@.forces =~= Seq::<V2>::empty());
            assert(a@.alignment =~= Seq::<V2>::empty());
        }
        a
    }
}

/// Pushing onto the vector pushes the value onto the views.
pub proof fn lemma_views_push(s: Seq<Vec2>, v: Vec2)
    ensures
        views(s.push(v)) == views(s).push(v@),
{
    assert(views(s.push(v)) =~= views(s).push(v@));
}

/// Bounded entries stay bounded under concatenation.
pub proof fn lemma_entries_bounded_concat(a: Seq<V2>, b: Seq<V2>)
    requires
        entries_bounded(a),
        entries_bounded(b),
    ensures
        entries_bounded(a + b),
{
    assert forall|i: int| 0 <= i < (a + b).len() implies bounded_entry(#[trigger] (a + b)[i]) by {
        if i < a.len() {
            assert((a + b)[i] == a[i]);
        } else {
            assert((a + b)[i] == b[i - a.len()]);
        }
    }
}

/// The player-avoidance contribution for one agent: a single repulsion
/// when the player is within range, nothing otherwise.
pub open spec fn player_entries(s: Sheep, player: V2) -> Seq<V2> {
    let sep = sub_v(s.position@, player);
    if within_range(sep, s.player_avoidance.range as int) {
        seq![player_repulsion_v(sep, s.player_avoidance.strength as int)]
    } else {
        Seq::empty()
    }
}

/// The barrier-avoidance contribution from one barrier: a repulsion from
/// the closest point of the barrier when that point is within range.
pub open spec fn barrier_entry(s: Sheep, b: Barrier) -> Seq<V2> {
    let sep = sub_v(s.position@, projected_point_v(s.position@, b.vertex_a@, b.vertex_b@));
    if within_range(sep, s.barrier_avoidance.range as int) {
        seq![inverse_linear_repulsion_v(sep, s.barrier_avoidance.strength as int)]
    } else {
        Seq::empty()
    }
}

/// Contributions from the first `m` barriers, in order.
pub open spec fn barrier_entries(s: Sheep, bs: Seq<Barrier>, m: int) -> Seq<V2>
    decreases m,
{
    if m <= 0 {
        Seq::empty()
    } else {
        barrier_entries(s, bs, m - 1) + barrier_entry(s, bs[m - 1])
    }
}

/// The separation and cohesion contributions of agent `a` in reaction to
/// peer `b`, each gated by `a`'s own range.
pub open spec fn peer_force_entry(a: Sheep, b: Sheep) -> Seq<V2> {
    let sep = sub_v(a.position@, b.position@);
    let rep = if within_range(sep, a.separation.range as int) {
        seq![inverse_linear_repulsion_v(sep, a.separation.strength as int)]
    } else {
        Seq::<V2>::empty()
    };
    let coh = if within_range(sep, a.cohesion.range as int) {
        seq![cohesion_pull_v(sep, a.cohesion.strength as int)]
    } else {
        Seq::<V2>::empty()
    };
    rep + coh
}

/// The alignment sample agent `a` takes of peer `b`.
pub open spec fn peer_alignment_entry(a: Sheep, b: Sheep) -> Seq<V2> {
    let sep = sub_v(a.position@, b.position@);
    if within_range(sep, a.alignment.range as int) {
        seq![alignment_sample_v(b.momentum@, sep)]
    } else {
        Seq::empty()
    }
}

/// Force contributions to agent `k` from peers `0 .. m`, skipping itself.
pub open spec fn peer_force_entries(all: Seq<Sheep>, k: int, m: int) -> Seq<V2>
    decreases m,
{
    if m <= 0 {
        Seq::empty()
    } else if m - 1 == k {
        peer_force_entries(all, k, m - 1)
    } else {
        peer_force_entries(all, k, m - 1) + peer_force_entry(all[k], all[m - 1])
    }
}

/// Alignment samples of agent `k` from peers `0 .. m`, skipping itself.
pub open spec fn peer_alignment_entries(all: Seq<Sheep>, k: int, m: int) -> Seq<V2>
    decreases m,
{
    if m <= 0 {
        Seq::empty()
    } else if m - 1 == k {
        peer_alignment_entries(all, k, m - 1)
    } else {
        peer_alignment_entries(all, k, m - 1) + peer_alignment_entry(all[k], all[m - 1])
    }
}

/// The player pass appends at most one bounded entry.
pub proof fn lemma_player_entries_props(s: Sheep, player: V2)
    requires
        params_wf(s.player_avoidance),
    ensures
        player_entries(s, player).len() <= 1,
        entries_bounded(player_entries(s, player)),
{
    crate::influence::lemma_player_repulsion_bound(
        sub_v(s.position@, player),
        s.player_avoidance.strength as int,
    );
}

/// Barrier contributions: at most one bounded entry per barrier.
pub proof fn lemma_barrier_entries_props(s: Sheep, bs: Seq<Barrier>, m: int)
    requires
        params_wf(s.barrier_avoidance),
        0 <= m,
    ensures
        barrier_entries(s, bs, m).len() <= m,
        entries_bounded(barrier_entries(s, bs, m)),
    decreases m,
{
    if m > 0 {
        lemma_barrier_entries_props(s, bs, m - 1);
        let b = bs[m - 1];
        crate::influence::lemma_inverse_linear_repulsion_bound(
            sub_v(s.position@, projected_point_v(s.position@, b.vertex_a@, b.vertex_b@)),
            s.barrier_avoidance.strength as int,
        );
        lemma_entries_bounded_concat(barrier_entries(s, bs, m - 1), barrier_entry(s, b));
    }
}

/// Peer contributions: at most two bounded force entries and one bounded
/// alignment sample per peer.
pub proof fn lemma_peer_entries_props(all: Seq<Sheep>, k: int, m: int)
    requires
        0 <= m <= all.len(),
        0 <= k < all.len(),
        forall|j: int| 0 <= j < all.len() ==> sheep_wf(#[trigger] all[j]),
    ensures
        peer_force_entries(all, k, m).len() <= 2 * m,
        entries_bounded(peer_force_entries(all, k, m)),
        peer_alignment_entries(all, k, m).len() <= m,
        entries_bounded(peer_alignment_entries(all, k, m)),
    decreases m,
{
    if m > 0 {
        lemma_peer_entries_props(all, k, m - 1);
        if m - 1 != k {
            let a = all[k];
            let b = all[m - 1];
            let sep = sub_v(a.position@, b.position@);
            crate::influence::lemma_inverse_linear_repulsion_bound(
                sep,
                a.separation.strength as int,
            );
            crate::influence::lemma_cohesion_pull_bound(sep, a.cohesion.strength as int);
            crate::vec2::lemma_len2_component_bound(b.momentum@, b.max_speed.0 as int);
            crate::influence::lemma_alignment_sample_bound(b.momentum@, sep);
            lemma_entries_bounded_concat(
                if within_range(sep, a.separation.range as int) {
                    seq![inverse_linear_repulsion_v(sep, a.separation.strength as int)]
                } else {
                    Seq::<V2>::empty()
                },
                if within_range(sep, a.cohesion.range as int) {
                    seq![cohesion_pull_v(sep, a.cohesion.strength as int)]
                } else {
                    Seq::<V2>::empty()
                },
            );
            lemma_entries_bounded_concat(
                peer_force_entries(all, k, m - 1),
                peer_force_entry(a, b),
            );
            lemma_entries_bounded_concat(
                peer_alignment_entries(all, k, m - 1),
                peer_alignment_entry(a, b),
            );
        }
    }
}

/// For two agents with matching separation and cohesion parameters, the
/// pairwise reactions are equal and opposite: each force entry that one
/// agent accumulates about the other is the negation of the corresponding
/// entry accumulated in return.
pub proof fn lemma_peer_reactions_equal_opposite(a: Sheep, b: Sheep)
    requires
        a.separation == b.separation,
        a.cohesion == b.cohesion,
    ensures
        peer_force_entry(b, a).len() == peer_force_entry(a, b).len(),
        forall|i: int|
            0 <= i < peer_force_entry(a, b).len() ==> #[trigger] peer_force_entry(b, a)[i]
                == crate::vec2::neg_v(peer_force_entry(a, b)[i]),
{
    let sep = sub_v(a.position@, b.position@);
    let nsep = sub_v(b.position@, a.position@);
    assert(nsep == crate::vec2::neg_v(sep));
    crate::influence::lemma_pairwise_equal_opposite(sep, a.separation.strength as int);
    crate::influence::lemma_pairwise_equal_opposite(sep, a.cohesion.strength as int);
    let fab = peer_force_entry(a, b);
    let fba = peer_force_entry(b, a);
    assert forall|i: int| 0 <= i < fab.len() implies #[trigger] fba[i] == crate::vec2::neg_v(
        fab[i],
    ) by {
        if within_range(sep, a.separation.range as int) {
            assert(fab[0] == inverse_linear_repulsion_v(sep, a.separation.strength as int));
            assert(fba[0] == inverse_linear_repulsion_v(nsep, a.separation.strength as int));
            if within_range(sep, a.cohesion.range as int) {
                assert(fab[1] == cohesion_pull_v(sep, a.cohesion.strength as int));
                assert(fba[1] == cohesion_pull_v(nsep, a.cohesion.strength as int));
            }
        } else {
            if within_range(sep, a.cohesion.range as int) {
                assert(fab[0] == cohesion_pull_v(sep, a.cohesion.strength as int));
                assert(fba[0] == cohesion_pull_v(nsep, a.cohesion.strength as int));
            }
        }
    }
}

/// A directed peer pair contributes at most two bounded force entries and
/// one bounded alignment sample.
pub proof fn lemma_peer_pair_props(a: Sheep, b: Sheep)
    requires
        sheep_wf(a),
        sheep_wf(b),
    ensures
        peer_force_entry(a, b).len() <= 2,
        entries_bounded(peer_force_entry(a, b)),
        peer_alignment_entry(a, b).len() <= 1,
        entries_bounded(peer_alignment_entry(a, b)),
{
    let sep = sub_v(a.position@, b.position@);
    crate::influence::lemma_inverse_linear_repulsion_bound(sep, a.separation.strength as int);
    crate::influence::lemma_cohesion_pull_bound(sep, a.cohesion.strength as int);
    crate::vec2::lemma_len2_component_bound(b.momentum@, b.max_speed.0 as int);
    crate::influence::lemma_alignment_sample_bound(b.momentum@, sep);
    lemma_entries_bounded_concat(
        if within_range(sep, a.separation.range as int) {
            seq![inverse_linear_repulsion_v(sep, a.separation.strength as int)]
        } else {
            Seq::<V2>::empty()
        },
        if within_range(sep, a.cohesion.range as int) {
            seq![cohesion_pull_v(sep, a.cohesion.strength as int)]
        } else {
            Seq::<V2>::empty()
        },
    );
}

/// Append to `entry` the contributions of agent `a` reacting to peer `b`:
/// separation, cohesion, and an alignment sample, each gated by `a`'s own
/// range for that force kind.
fn apply_peer_pair(a: Sheep, b: Sheep, entry: &mut Accumulator)
    requires
        sheep_wf(a),
        sheep_wf(b),
        acc_wf(old(entry)@),
        old(entry)@.forces.len() + 2 <= MAX_INFLUENCES as int,
        old(entry)@.alignment.len() + 1 <= MAX_INFLUENCES as int,
    ensures
        final(entry)@.forces == old(entry)@.forces + peer_force_entry(a, b),
        final(entry)@.alignment == old(entry)@.alignment + peer_alignment_entry(a, b),
        acc_wf(final(entry)@),
{
    proof {
        lemma_peer_pair_props(a, b);
    }
    let sep = a.position.minus(&b.position);
    let l2 = sep.length_squared();
    let ghost f0 = entry.forces@;
    let ghost a0 = entry.alignment@;
    proof {
        lemma_mul_fits(
            a.separation.range as int,
            a.separation.range as int,
            1_000_000_000_000,
            1_000_000_000_000,
        );
        lemma_mul_fits(
            a.cohesion.range as int,
            a.cohesion.range as int,
            1_000_000_000_000,
            1_000_000_000_000,
        );
        lemma_mul_fits(
            a.alignment.range as int,
            a.alignment.range as int,
            1_000_000_000_000,
            1_000_000_000_000,
        );
    }
    if l2 < (a.separation.range as i128) * (a.separation.range as i128) {
        let f = inverse_linear_repulsion(sep, a.separation.strength);
        let ghost before = entry.forces@;
        entry.forces.push(f);
        proof {
            lemma_views_push(before, f);
        }
    }
    if l2 < (a.cohesion.range as i128) * (a.cohesion.range as i128) {
        let f = cohesion_pull(sep, a.cohesion.strength);
        let ghost before = entry.forces@;
        entry.forces.push(f);
        proof {
            lemma_views_push(before, f);
        }
    }
    proof {
        assert(views(entry.forces@) =~= views(f0) + peer_force_entry(a, b));
        lemma_entries_bounded_concat(views(f0), peer_force_entry(a, b));
    }
    if l2 < (a.alignment.range as i128) * (a.alignment.range as i128) {
        proof {
            crate::vec2::lemma_len2_component_bound(b.momentum@, b.max_speed.0 as int);
        }
        let f = alignment_sample(b.momentum, sep);
        let ghost before = entry.alignment@;
        entry.alignment.push(f);
        proof {
            lemma_views_push(before, f);
        }
    }
    proof {
        assert(views(entry.alignment@) =~= views(a0) + peer_alignment_entry(a, b));
        lemma_entries_bounded_concat(views(a0), peer_alignment_entry(a, b));
    }
}

/// The peer pass: every unordered pair of agents is visited once, and
/// each member reacts to the other with its own parameters.
pub fn sheep_influences(sheep: &Vec<Sheep>, acc: &mut Vec<Accumulator>)
    requires
        old(acc)@.len() == sheep@.len(),
        forall|j: int| 0 <= j < sheep@.len() ==> sheep_wf(#[trigger] sheep@[j]),
        forall|j: int|
            0 <= j < sheep@.len() ==> acc_wf(#[trigger] old(acc)@[j]@) && old(
                acc,
            )@[j]@.forces.len() + 2 * sheep@.len() <= MAX_INFLUENCES as int && old(
                acc,
            )@[j]@.alignment.len() + sheep@.len() <= MAX_INFLUENCES as int,
    ensures
        final(acc)@.len() == sheep@.len(),
        forall|j: int|
            0 <= j < sheep@.len() ==> {
                &&& #[trigger] final(acc)@[j]@.forces == old(acc)@[j]@.forces + peer_force_entries(
                    sheep@,
                    j,
                    sheep@.len() as int,
                )
                &&& final(acc)@[j]@.alignment == old(acc)@[j]@.alignment + peer_alignment_entries(
                    sheep@,
                    j,
                    sheep@.len() as int,
                )
                &&& acc_wf(final(acc)@[j]@)
            },
{
    let ghost acc0 = acc@;
    let ghost all = sheep@;
    let n = sheep.len();
    let mut i: usize = 0;
    while i < n
        invariant
            n == all.len(),
            all == sheep@,
            acc@.len() == n,
            acc0.len() == n,
            i <= n,
            forall|j: int| 0 <= j < n ==> sheep_wf(#[trigger] all[j]),
            forall|j: int|
                0 <= j < n ==> acc_wf(#[trigger] acc0[j]@) && acc0[j]@.forces.len() + 2 * n
                    <= MAX_INFLUENCES as int && acc0[j]@.alignment.len() + n
                    <= MAX_INFLUENCES as int,
            forall|k: int|
                0 <= k < i ==> {
                    &&& #[trigger] acc@[k]@.forces == acc0[k]@.forces + peer_force_entries(
                        all,
                        k,
                        n as int,
                    )
                    &&& acc@[k]@.alignment == acc0[k]@.alignment + peer_alignment_entries(
                        all,
                        k,
                        n as int,
                    )
                },
            forall|k: int|
                i <= k < n ==> {
                    &&& #[trigger] acc@[k]@.forces == acc0[k]@.forces + peer_force_entries(
                        all,
                        k,
                        i as int,
                    )
                    &&& acc@[k]@.alignment == acc0[k]@.alignment + peer_alignment_entries(
                        all,
                        k,
                        i as int,
                    )
                },
            forall|k: int| 0 <= k < n ==> acc_wf(#[trigger] acc@[k]@),
        decreases n - i,
    {
        let mut j: usize = i + 1;
        proof {
            assert(peer_force_entries(all, i as int, i + 1) == peer_force_entries(
                all,
                i as int,
                i as int,
            ));
            assert(peer_alignment_entries(all, i as int, i + 1) == peer_alignment_entries(
                all,
                i as int,
                i as int,
            ));
        }
        while j < n
            invariant
                n == all.len(),
                all == sheep@,
                acc@.len() == n,
                acc0.len() == n,
                i < n,
                i + 1 <= j <= n,
                forall|k: int| 0 <= k < n ==> sheep_wf(#[trigger] all[k]),
                forall|k: int|
                    0 <= k < n ==> acc_wf(#[trigger] acc0[k]@) && acc0[k]@.forces.len() + 2 * n
                        <= MAX_INFLUENCES as int && acc0[k]@.alignment.len() + n
                        <= MAX_INFLUENCES as int,
                forall|k: int|
                    0 <= k < i ==> {
                        &&& #[trigger] acc@[k]@.forces == acc0[k]@.forces + peer_force_entries(
                            all,
                            k,
                            n as int,
                        )
                        &&& acc@[k]@.alignment == acc0[k]@.alignment + peer_alignment_entries(
                            all,
                            k,
                            n as int,
                        )
                    },
                acc@[i as int]@.forces == acc0[i as int]@.forces + peer_force_entries(
                    all,
                    i as int,
                    j as int,
                ),
                acc@[i as int]@.alignment == acc0[i as int]@.alignment + peer_alignment_entries(
                    all,
                    i as int,
                    j as int,
                ),
                forall|k: int|
                    i < k < j ==> {
                        &&& #[trigger] acc@[k]@.forces == acc0[k]@.forces + peer_force_entries(
                            all,
                            k,
                            i + 1,
                        )
                        &&& acc@[k]@.alignment == acc0[k]@.alignment + peer_alignment_entries(
                            all,
                            k,
                            i + 1,
                        )
                    },
                forall|k: int|
                    j <= k < n ==> {
                        &&& #[trigger] acc@[k]@.forces == acc0[k]@.forces + peer_force_entries(
                            all,
                            k,
                            i as int,
                        )
                        &&& acc@[k]@.alignment == acc0[k]@.alignment + peer_alignment_entries(
                            all,
                            k,
                            i as int,
                        )
                    },
                forall|k: int| 0 <= k < n ==> acc_wf(#[trigger] acc@[k]@),
            decreases n - j,
        {
            let a = sheep[i];
            let b = sheep[j];
            proof {
                lemma_peer_entries_props(all, i as int, j as int);
                lemma_peer_entries_props(all, j as int, i as int);
                lemma_peer_entries_props(all, i as int, j + 1);
                lemma_peer_entries_props(all, j as int, i + 1);
            }
            let ghost fi = acc@[i as int]@.forces;
            let ghost ai = acc@[i as int]@.alignment;
            apply_peer_pair(a, b, &mut acc[i]);
            proof {
                assert(acc@[i as int]@.forces =~= acc0[i as int]@.forces + peer_force_entries(
                    all,
                    i as int,
                    j + 1,
                ));
                assert(acc@[i as int]@.alignment =~= acc0[i as int]@.alignment
                    + peer_alignment_entries(all, i as int, j + 1));
            }
            apply_peer_pair(b, a, &mut acc[j]);
            proof {
                assert(acc@[j as int]@.forces =~= acc0[j as int]@.forces + peer_force_entries(
                    all,
                    j as int,
                    i + 1,
                ));
                assert(acc@[j as int]@.alignment =~= acc0[j as int]@.alignment
                    + peer_alignment_entries(all, j as int, i + 1));
            }
            j = j + 1;
        }
        i = i + 1;
    }
}

/// The player-avoidance pass: for each agent within range of the player,
/// append one repulsion to its force accumulator.
pub fn player_influence(sheep: &Vec<Sheep>, player_position: Vec2, acc: &mut Vec<Accumulator>)
    requires
        old(acc)@.len() == sheep@.len(),
        in_world(player_position@),
        forall|j: int| 0 <= j < sheep@.len() ==> sheep_wf(#[trigger] sheep@[j]),
        forall|j: int|
            0 <= j < sheep@.len() ==> acc_wf(#[trigger] old(acc)@[j]@) && old(
                acc,
            )@[j]@.forces.len() + 1 <= MAX_INFLUENCES as int,
    ensures
        final(acc)@.len() == sheep@.len(),
        forall|j: int|
            0 <= j < sheep@.len() ==> {
                &&& #[trigger] final(acc)@[j]@.forces == old(acc)@[j]@.forces + player_entries(
                    sheep@[j],
                    player_position@,
                )
                &&& final(acc)@[j]@.alignment == old(acc)@[j]@.alignment
                &&& acc_wf(final(acc)@[j]@)
            },
{
    let ghost acc0 = acc@;
    let n = sheep.len();
    let mut k: usize = 0;
    while k < n
        invariant
            n == sheep@.len(),
            acc@.len() == n,
            acc0.len() == n,
            k <= n,
            in_world(player_position@),
            forall|j: int| 0 <= j < n ==> sheep_wf(#[trigger] sheep@[j]),
            forall|j: int|
                0 <= j < n ==> acc_wf(#[trigger] acc0[j]@) && acc0[j]@.forces.len() + 1
                    <= MAX_INFLUENCES as int,
            forall|j: int|
                0 <= j < k ==> {
                    &&& #[trigger] acc@[j]@.forces == acc0[j]@.forces + player_entries(
                        sheep@[j],
                        player_position@,
                    )
                    &&& acc@[j]@.alignment == acc0[j]@.alignment
                    &&& acc_wf(acc@[j]@)
                },
            forall|j: int| k <= j < n ==> #[trigger] acc@[j] == acc0[j],
        decreases n - k,
    {
        let s = sheep[k];
        proof {
            lemma_player_entries_props(s, player_position@);
        }
        let sep = s.position.minus(&player_position);
        let r = s.player_avoidance.range;
        let l2 = sep.length_squared();
        proof {
            lemma_mul_fits(r as int, r as int, 1_000_000_000_000, 1_000_000_000_000);
        }
        if l2 < (r as i128) * (r as i128) {
            let f = player_repulsion(sep, s.player_avoidance.strength);
            let entry = &mut acc[k];
            let ghost before = entry.forces@;
            entry.forces.push(f);
            proof {
                lemma_views_push(before, f);
                assert(views(before) + player_entries(s, player_position@) =~= views(
                    before,
                ).push(f@));
            }
        } else {
            proof {
                assert(acc@[k as int]@.forces + player_entries(s, player_position@) =~= acc@[
                    k as int]@.forces);
            }
        }
        k = k + 1;
    }
}

/// The barrier-avoidance pass: for each agent and each barrier whose
/// closest point is within range, append one repulsion.
pub fn barrier_influence(sheep: &Vec<Sheep>, barriers: &Vec<Barrier>, acc: &mut Vec<Accumulator>)
    requires
        old(acc)@.len() == sheep@.len(),
        forall|j: int| 0 <= j < sheep@.len() ==> sheep_wf(#[trigger] sheep@[j]),
        forall|j: int| 0 <= j < barriers@.len() ==> barrier_wf(#[trigger] barriers@[j]),
        forall|j: int|
            0 <= j < sheep@.len() ==> acc_wf(#[trigger] old(acc)@[j]@) && old(
                acc,
            )@[j]@.forces.len() + barriers@.len() <= MAX_INFLUENCES as int,
    ensures
        final(acc)@.len() == sheep@.len(),
        forall|j: int|
            0 <= j < sheep@.len() ==> {
                &&& #[trigger] final(acc)@[j]@.forces == old(acc)@[j]@.forces + barrier_entries(
                    sheep@[j],
                    barriers@,
                    barriers@.len() as int,
                )
                &&& final(acc)@[j]@.alignment == old(acc)@[j]@.alignment
                &&& acc_wf(final(acc)@[j]@)
            },
{
    let ghost acc0 = acc@;
    let n = sheep.len();
    let nb = barriers.len();
    let mut k: usize = 0;
    while k < n
        invariant
            n == sheep@.len(),
            nb == barriers@.len(),
            acc@.len() == n,
            acc0.len() == n,
            k <= n,
            forall|j: int| 0 <= j < n ==> sheep_wf(#[trigger] sheep@[j]),
            forall|j: int| 0 <= j < nb ==> barrier_wf(#[trigger] barriers@[j]),
            forall|j: int|
                0 <= j < n ==> acc_wf(#[trigger] acc0[j]@) && acc0[j]@.forces.len() + nb
                    <= MAX_INFLUENCES as int,
            forall|j: int|
                0 <= j < k ==> {
                    &&& #[trigger] acc@[j]@.forces == acc0[j]@.forces + barrier_entries(
                        sheep@[j],
                        barriers@,
                        nb as int,
                    )
                    &&& acc@[j]@.alignment == acc0[j]@.alignment
                    &&& acc_wf(acc@[j]@)
                },
            forall|j: int| k <= j < n ==> #[trigger] acc@[j] == acc0[j],
        decreases n - k,
    {
        let s = sheep[k];
        let mut bi: usize = 0;
        while bi < nb
            invariant
                n == sheep@.len(),
                nb == barriers@.len(),
                acc@.len() == n,
                acc0.len() == n,
                k < n,
                bi <= nb,
                s == sheep@[k as int],
                forall|j: int| 0 <= j < n ==> sheep_wf(#[trigger] sheep@[j]),
                forall|j: int| 0 <= j < nb ==> barrier_wf(#[trigger] barriers@[j]),
                forall|j: int|
                    0 <= j < n ==> acc_wf(#[trigger] acc0[j]@) && acc0[j]@.forces.len() + nb
                        <= MAX_INFLUENCES as int,
                forall|j: int|
                    0 <= j < k ==> {
                        &&& #[trigger] acc@[j]@.forces == acc0[j]@.forces + barrier_entries(
                            sheep@[j],
                            barriers@,
                            nb as int,
                        )
                        &&& acc@[j]@.alignment == acc0[j]@.alignment
                        &&& acc_wf(acc@[j]@)
                    },
                acc@[k as int]@.forces == acc0[k as int]@.forces + barrier_entries(
                    sheep@[k as int],
                    barriers@,
                    bi as int,
                ),
                acc@[k as int]@.alignment == acc0[k as int]@.alignment,
                acc_wf(acc@[k as int]@),
                acc@[k as int]@.forces.len() <= acc0[k as int]@.forces.len() + bi,
                forall|j: int| k < j < n ==> #[trigger] acc@[j] == acc0[j],
            decreases nb - bi,
        {
            proof {
                lemma_barrier_entries_props(s, barriers@, bi as int);
                lemma_barrier_entries_props(s, barriers@, bi + 1);
            }
            let b = barriers[bi];
            let closest = b.projected_point(s.position);
            let sep = s.position.minus(&closest);
            let r = s.barrier_avoidance.range;
            let l2 = sep.length_squared();
            proof {
                lemma_mul_fits(r as int, r as int, 1_000_000_000_000, 1_000_000_000_000);
            }
            if l2 < (r as i128) * (r as i128) {
                let f = inverse_linear_repulsion(sep, s.barrier_avoidance.strength);
                let entry = &mut acc[k];
                let ghost before = entry.forces@;
                entry.forces.push(f);
                proof {
                    lemma_views_push(before, f);
                    assert(acc0[k as int]@.forces + barrier_entries(
                        sheep@[k as int],
                        barriers@,
                        bi + 1,
                    ) =~= views(before).push(f@));
                }
            } else {
                proof {
                    assert(acc0[k as int]@.forces + barrier_entries(
                        sheep@[k as int],
                        barriers@,
                        bi + 1,
                    ) =~= acc@[k as int]@.forces);
                }
            }
            bi = bi + 1;
        }
        k = k + 1;
    }
}

/// Sum of a list of force contributions.
pub open spec fn sum_v(s: Seq<V2>) -> V2
    decreases s.len(),
{
    if s.len() == 0 {
        zero_v()
    } else {
        add_v(sum_v(s.drop_last()), s.last())
    }
}

/// Accumulation is commutative: the sum of concatenated contribution
/// lists is the sum of each list, and vector addition commutes, so the
/// order in which the generators append their contributions cannot affect
/// the total force the integrator sees.
pub proof fn lemma_sum_concat(a: Seq<V2>, b: Seq<V2>)
    ensures
        sum_v(a + b) == add_v(sum_v(a), sum_v(b)),
        add_v(sum_v(a), sum_v(b)) == add_v(sum_v(b), sum_v(a)),
    decreases b.len(),
{
    if b.len() == 0 {
        assert(a + b =~= a);
    } else {
        lemma_sum_concat(a, b.drop_last());
        assert((a + b).drop_last() =~= a + b.drop_last());
    }
}

/// Component-wise average of a list of samples; zero when the list is
/// empty, so an isolated agent contributes nothing.
pub open spec fn average_v(s: Seq<V2>) -> V2 {
    if s.len() == 0 {
        zero_v()
    } else {
        V2 {
            x: tdiv(sum_v(s).x, s.len() as int),
            y: tdiv(sum_v(s).y, s.len() as int),
        }
    }
}

/// The momentum after one integration step: the old momentum, plus the
/// summed forces and the averaged alignment samples scaled by `dt`, minus
/// damping, clamped to the agent's speed limit. The damping term rounds
/// away from zero, so any nonzero momentum keeps decaying once forcing
/// stops instead of freezing below the rounding grain.
pub open spec fn integrated_momentum_v(s: Sheep, forces: Seq<V2>, align: Seq<V2>, dt: int) -> V2 {
    let f = sum_v(forces);
    let av = average_v(align);
    let m = s.momentum@;
    let sc = SCALE as int;
    clamp_len_v(
        V2 {
            x: m.x + tdiv(f.x * dt, sc) + tdiv(av.x * (s.alignment.strength as int) * dt, sc * sc)
                - tdiv_up((DAMPING as int) * m.x * dt, sc * sc),
            y: m.y + tdiv(f.y * dt, sc) + tdiv(av.y * (s.alignment.strength as int) * dt, sc * sc)
                - tdiv_up((DAMPING as int) * m.y * dt, sc * sc),
        },
        s.max_speed.0 as int,
    )
}

/// A coordinate clipped to the world bounds.
pub open spec fn clip_world(x: int) -> int {
    if x < -(POSITION_LIMIT as int) {
        -(POSITION_LIMIT as int)
    } else if x > POSITION_LIMIT as int {
        POSITION_LIMIT as int
    } else {
        x
    }
}

/// Whether a momentum is above the dead zone and produces displacement.
pub open spec fn moved_v(m: V2) -> bool {
    len2_v(m) > (DEAD_ZONE as int) * (DEAD_ZONE as int)
}

/// The position after one integration step: displaced by the new momentum
/// over `dt` when above the dead zone, unchanged otherwise.
pub open spec fn integrated_position_v(p: V2, m: V2, dt: int) -> V2 {
    if moved_v(m) {
        V2 {
            x: clip_world(p.x + tdiv(m.x * dt, SCALE as int)),
            y: clip_world(p.y + tdiv(m.y * dt, SCALE as int)),
        }
    } else {
        p
    }
}

/// The observable outcome of one integration step for one agent.
pub ghost struct SheepStep {
    pub position: V2,
    pub momentum: V2,
    pub heading: V2,
}

/// One full integration step: momentum from the accumulated forces, then
/// position and heading from the new momentum.
pub open spec fn integrate_sheep_v(s: Sheep, acc: AccView, dt: int) -> SheepStep {
    let m2 = integrated_momentum_v(s, acc.forces, acc.alignment, dt);
    SheepStep {
        position: integrated_position_v(s.position@, m2, dt),
        momentum: m2,
        heading: if moved_v(m2) {
            m2
        } else {
            s.heading@
        },
    }
}

/// A zero-length tick changes neither momentum nor position: with
/// `dt == 0` every force term vanishes and the clamped momentum is the
/// old momentum, which is already within the speed limit.
pub proof fn lemma_zero_dt(s: Sheep, acc: AccView)
    requires
        sheep_wf(s),
    ensures
        integrate_sheep_v(s, acc, 0).momentum == s.momentum@,
        integrate_sheep_v(s, acc, 0).position == s.position@,
{
    let f = sum_v(acc.forces);
    let av = average_v(acc.alignment);
    let m = s.momentum@;
    let sc = SCALE as int;
    assert(f.x * 0 == 0 && f.y * 0 == 0 && av.x * (s.alignment.strength as int) * 0 == 0 && av.y
        * (s.alignment.strength as int) * 0 == 0 && (DAMPING as int) * m.x * 0 == 0 && (
    DAMPING as int) * m.y * 0 == 0 && m.x * 0 == 0 && m.y * 0 == 0) by (nonlinear_arith);
    lemma_div_basics(sc);
    lemma_div_basics(sc * sc);
    lemma_tdiv_up_zero(sc * sc);
    assert(integrated_momentum_v(s, acc.forces, acc.alignment, 0) == m);
}

/// Absent any accumulated force, a strictly positive tick strictly
/// shrinks a nonzero momentum: the fixed damping coefficient drives the
/// flock toward rest, and there is no runaway acceleration. The tick must
/// stay within `DAMPING_STABLE_DT`, the bound under which one discrete
/// damping step cannot overshoot past zero.
pub proof fn lemma_damping_decays(s: Sheep, acc: AccView, dt: int)
    requires
        sheep_wf(s),
        acc.forces.len() == 0,
        acc.alignment.len() == 0,
        0 < dt <= DAMPING_STABLE_DT as int,
        s.momentum@ != zero_v(),
    ensures
        len2_v(integrate_sheep_v(s, acc, dt).momentum) < len2_v(s.momentum@),
{
    let m = s.momentum@;
    let sc = SCALE as int;
    let f = sum_v(acc.forces);
    let av = average_v(acc.alignment);
    assert(f == zero_v() && av == zero_v());
    assert(f.x * dt == 0 && f.y * dt == 0 && av.x * (s.alignment.strength as int) * dt == 0
        && av.y * (s.alignment.strength as int) * dt == 0) by (nonlinear_arith)
        requires
            f.x == 0,
            f.y == 0,
            av.x == 0,
            av.y == 0;
    lemma_div_basics(sc);
    lemma_div_basics(sc * sc);
    let ix = m.x - tdiv_up((DAMPING as int) * m.x * dt, sc * sc);
    let iy = m.y - tdiv_up((DAMPING as int) * m.y * dt, sc * sc);
    lemma_damping_component(m.x, dt);
    lemma_damping_component(m.y, dt);
    assert(ix * ix + iy * iy < m.x * m.x + m.y * m.y) by (nonlinear_arith)
        requires
            m.x != 0 || m.y != 0,
            m.x == 0 ==> ix == 0,
            m.x != 0 ==> 0 <= ix * ix < m.x * m.x,
            m.y == 0 ==> iy == 0,
            m.y != 0 ==> 0 <= iy * iy < m.y * m.y;
    lemma_len2_component_bound(m, s.max_speed.0 as int);
    assert(len2_v(V2 { x: ix, y: iy }) <= s.max_speed.0 * s.max_speed.0);
    assert(integrated_momentum_v(s, acc.forces, acc.alignment, dt) == (V2 { x: ix, y: iy }));
}

/// One away-rounded damping step on a single momentum component: it
/// strictly shrinks a nonzero component without crossing zero, and fixes
/// a zero component.
proof fn lemma_damping_component(mc: int, dt: int)
    requires
        0 < dt <= DAMPING_STABLE_DT as int,
    ensures
        mc == 0 ==> mc - tdiv_up((DAMPING as int) * mc * dt, (SCALE as int) * (SCALE as int))
            == 0,
        mc != 0 ==> 0 <= (mc - tdiv_up((DAMPING as int) * mc * dt, (SCALE as int) * (SCALE as int)))
            * (mc - tdiv_up((DAMPING as int) * mc * dt, (SCALE as int) * (SCALE as int))) < mc
            * mc,
{
    let sc = SCALE as int;
    let d = sc * sc;
    let a = (DAMPING as int) * mc * dt;
    if mc == 0 {
        assert(a == 0) by (nonlinear_arith)
            requires
                a == (DAMPING as int) * mc * dt,
                mc == 0;
        lemma_tdiv_up_zero(d);
    } else if mc >= 1 {
        assert(a >= 1 && a <= mc * d) by (nonlinear_arith)
            requires
                a == (DAMPING as int) * mc * dt,
                mc >= 1,
                1 <= dt <= 1250,
                d == 1_000_000;
        lemma_tdiv_up_pos(a, d);
        lemma_tdiv_up_bound(a, d, mc);
        assert(0 <= (mc - tdiv_up(a, d)) * (mc - tdiv_up(a, d)) < mc * mc) by (nonlinear_arith)
            requires
                1 <= tdiv_up(a, d) <= mc;
    } else {
        assert(-a >= 1 && mc * d <= a && (-mc) * d == -(mc * d)) by (nonlinear_arith)
            requires
                a == (DAMPING as int) * mc * dt,
                mc <= -1,
                1 <= dt <= 1250,
                d == 1_000_000;
        lemma_tdiv_up_pos(-a, d);
        lemma_tdiv_up_bound(a, d, -mc);
        assert(tdiv_up(a, d) == -tdiv_up(-a, d));
        assert(0 <= (mc - tdiv_up(a, d)) * (mc - tdiv_up(a, d)) < mc * mc) by (nonlinear_arith)
            requires
                mc <= tdiv_up(a, d) <= -1;
    }
}

/// Sum the entries of an accumulator list.
fn sum_entries(entries: &Vec<Vec2>) -> (s: (i128, i128))
    requires
        entries_bounded(views(entries@)),
        entries@.len() <= MAX_INFLUENCES as int,
    ensures
        s.0 == sum_v(views(entries@)).x,
        s.1 == sum_v(views(entries@)).y,
        -100_000_000_000_000_000 <= s.0 <= 100_000_000_000_000_000,
        -100_000_000_000_000_000 <= s.1 <= 100_000_000_000_000_000,
{
    let n = entries.len();
    let mut sx: i128 = 0;
    let mut sy: i128 = 0;
    let mut idx: usize = 0;
    proof {
        assert(views(entries@).take(0) =~= Seq::<V2>::empty());
    }
    while idx < n
        invariant
            n == entries@.len(),
            n <= MAX_INFLUENCES,
            idx <= n,
            entries_bounded(views(entries@)),
            sx == sum_v(views(entries@).take(idx as int)).x,
            sy == sum_v(views(entries@).take(idx as int)).y,
            -(idx * (FORCE_LIMIT as int)) <= sx <= idx * (FORCE_LIMIT as int),
            -(idx * (FORCE_LIMIT as int)) <= sy <= idx * (FORCE_LIMIT as int),
        decreases n - idx,
    {
        let e = entries[idx];
        proof {
            let vs = views(entries@);
            assert(vs[idx as int] == entries@[idx as int]@);
            assert(bounded_entry(vs[idx as int]));
            assert(vs.take(idx + 1).drop_last() =~= vs.take(idx as int));
            assert(vs.take(idx + 1).last() == vs[idx as int]);
        }
        sx = sx + (e.x as i128);
        sy = sy + (e.y as i128);
        idx = idx + 1;
    }
    proof {
        assert(views(entries@).take(n as int) =~= views(entries@));
    }
    (sx, sy)
}

/// Average the entries of an accumulator list; zero for an empty list.
fn average_entries(entries: &Vec<Vec2>) -> (a: (i128, i128))
    requires
        entries_bounded(views(entries@)),
        entries@.len() <= MAX_INFLUENCES as int,
    ensures
        a.0 == average_v(views(entries@)).x,
        a.1 == average_v(views(entries@)).y,
        -(FORCE_LIMIT as int) <= a.0 <= FORCE_LIMIT as int,
        -(FORCE_LIMIT as int) <= a.1 <= FORCE_LIMIT as int,
{
    let n = entries.len();
    if n == 0 {
        (0, 0)
    } else {
        let (sx, sy) = sum_entries(entries);
        proof {
            let cnt = entries@.len() as int;
            assert(-((FORCE_LIMIT as int) * cnt) <= sx <= (FORCE_LIMIT as int) * cnt
                && -((FORCE_LIMIT as int) * cnt) <= sy <= (FORCE_LIMIT as int) * cnt) by {
                lemma_sum_entries_bound(views(entries@));
            }
            lemma_tdiv_bound(sx as int, cnt, FORCE_LIMIT as int);
            lemma_tdiv_bound(sy as int, cnt, FORCE_LIMIT as int);
        }
        (tdiv128(sx, n as i128), tdiv128(sy, n as i128))
    }
}

/// The sum of a bounded list is bounded by the list length times the
/// entry bound.
proof fn lemma_sum_entries_bound(s: Seq<V2>)
    requires
        entries_bounded(s),
    ensures
        -((FORCE_LIMIT as int) * s.len()) <= sum_v(s).x <= (FORCE_LIMIT as int) * s.len(),
        -((FORCE_LIMIT as int) * s.len()) <= sum_v(s).y <= (FORCE_LIMIT as int) * s.len(),
    decreases s.len(),
{
    if s.len() > 0 {
        assert(entries_bounded(s.drop_last())) by {
            assert(forall|i: int|
                0 <= i < s.drop_last().len() ==> s.drop_last()[i] == #[trigger] s[i]);
        }
        lemma_sum_entries_bound(s.drop_last());
        assert(bounded_entry(s.last()));
    }
}

/// A coordinate clipped to the world bounds.
pub fn clip_coord(x: i64) -> (r: i64)
    ensures
        r == clip_world(x as int),
{
    if x < -POSITION_LIMIT {
        -POSITION_LIMIT
    } else if x > POSITION_LIMIT {
        POSITION_LIMIT
    } else {
        x
    }
}

/// One integration step for one agent: drain the accumulator into a
/// damped, clamped momentum update, displace the position when above the
/// dead zone, and face the direction of motion.
pub fn integrate_sheep(s: Sheep, acc: &Accumulator, dt: i64) -> (r: Sheep)
    requires
        sheep_wf(s),
        acc_wf(acc@),
        0 <= dt <= DT_LIMIT,
    ensures
        r.position@ == integrate_sheep_v(s, acc@, dt as int).position,
        r.momentum@ == integrate_sheep_v(s, acc@, dt as int).momentum,
        r.heading@ == integrate_sheep_v(s, acc@, dt as int).heading,
        r.max_speed == s.max_speed,
        r.player_avoidance == s.player_avoidance,
        r.barrier_avoidance == s.barrier_avoidance,
        r.separation == s.separation,
        r.cohesion == s.cohesion,
        r.alignment == s.alignment,
        sheep_wf(r),
        dt == 0 ==> r.position == s.position && r.momentum == s.momentum,
{
    let (fx, fy) = sum_entries(&acc.forces);
    let (ax, ay) = average_entries(&acc.alignment);
    let dt128 = dt as i128;
    let s128 = SCALE as i128;
    let k_al = s.alignment.strength;
    proof {
        lemma_len2_component_bound(s.momentum@, s.max_speed.0 as int);
        lemma_mul_fits(fx as int, dt as int, 100_000_000_000_000_000, 10_000);
        lemma_mul_fits(fy as int, dt as int, 100_000_000_000_000_000, 10_000);
        lemma_tdiv_bound(fx as int * (dt as int), 1000, 1_000_000_000_000_000_000);
        lemma_tdiv_bound(fy as int * (dt as int), 1000, 1_000_000_000_000_000_000);
        lemma_mul_fits(ax as int, k_al as int, 1_000_000_000_000, 1_000_000);
        lemma_mul_fits(ay as int, k_al as int, 1_000_000_000_000, 1_000_000);
        lemma_mul_fits(ax as int * (k_al as int), dt as int, 1_000_000_000_000_000_000, 10_000);
        lemma_mul_fits(ay as int * (k_al as int), dt as int, 1_000_000_000_000_000_000, 10_000);
        lemma_tdiv_bound(ax as int * (k_al as int) * (dt as int), 1_000_000,
            10_000_000_000_000_000);
        lemma_tdiv_bound(ay as int * (k_al as int) * (dt as int), 1_000_000,
            10_000_000_000_000_000);
        lemma_mul_fits(DAMPING as int, s.momentum@.x, 800, 1_000_000_000);
        lemma_mul_fits(DAMPING as int, s.momentum@.y, 800, 1_000_000_000);
        lemma_mul_fits((DAMPING as int) * s.momentum@.x, dt as int, 800_000_000_000, 10_000);
        lemma_mul_fits((DAMPING as int) * s.momentum@.y, dt as int, 800_000_000_000, 10_000);
        lemma_tdiv_up_bound((DAMPING as int) * s.momentum@.x * (dt as int), 1_000_000,
            10_000_000_000);
        lemma_tdiv_up_bound((DAMPING as int) * s.momentum@.y * (dt as int), 1_000_000,
            10_000_000_000);
    }
    let t1x = tdiv128(fx * dt128, s128);
    let t1y = tdiv128(fy * dt128, s128);
    let t2x = tdiv128(ax * (k_al as i128) * dt128, s128 * s128);
    let t2y = tdiv128(ay * (k_al as i128) * dt128, s128 * s128);
    let t3x = tdiv128_up((DAMPING as i128) * (s.momentum.x as i128) * dt128, s128 * s128);
    let t3y = tdiv128_up((DAMPING as i128) * (s.momentum.y as i128) * dt128, s128 * s128);
    let ix = (s.momentum.x as i128) + t1x + t2x - t3x;
    let iy = (s.momentum.y as i128) + t1y + t2y - t3y;
    let ideal = Vec2 { x: ix as i64, y: iy as i64 };
    let m2 = clamp_length(ideal, s.max_speed.0);
    proof {
        lemma_len2_component_bound(m2@, s.max_speed.0 as int);
        lemma_mul_fits(m2@.x, dt as int, 1_000_000_000, 10_000);
        lemma_mul_fits(m2@.y, dt as int, 1_000_000_000, 10_000);
        lemma_tdiv_bound(m2@.x * (dt as int), 1000, 10_000_000_000);
        lemma_tdiv_bound(m2@.y * (dt as int), 1000, 10_000_000_000);
        if dt == 0 {
            lemma_zero_dt(s, acc@);
        }
    }
    let l2m = m2.length_squared();
    proof {
        assert((DEAD_ZONE as int) * (DEAD_ZONE as int) == 100) by (nonlinear_arith)
            requires
                DEAD_ZONE == 10;
    }
    let moved = l2m > (DEAD_ZONE as i128) * (DEAD_ZONE as i128);
    let position = if moved {
        let step_x = tdiv128((m2.x as i128) * dt128, s128);
        let step_y = tdiv128((m2.y as i128) * dt128, s128);
        Vec2 { x: clip_coord(s.position.x + (step_x as i64)), y: clip_coord(
            s.position.y + (step_y as i64),
        ) }
    } else {
        s.position
    };
    let heading = if moved {
        m2
    } else {
        s.heading
    };
    Sheep {
        position,
        momentum: m2,
        heading,
        max_speed: s.max_speed,
        player_avoidance: s.player_avoidance,
        barrier_avoidance: s.barrier_avoidance,
        separation: s.separation,
        cohesion: s.cohesion,
        alignment: s.alignment,
    }
}

/// What the integrator leaves behind for one agent: the outcome of
/// `integrate_sheep_v`, unchanged attributes, preserved well-formedness,
/// and no change at all to position and momentum when `dt == 0`.
pub open spec fn integrated_ok(pre: Sheep, a: AccView, dt: int, post: Sheep) -> bool {
    let st = integrate_sheep_v(pre, a, dt);
    &&& post.position@ == st.position
    &&& post.momentum@ == st.momentum
    &&& post.heading@ == st.heading
    &&& post.max_speed == pre.max_speed
    &&& post.player_avoidance == pre.player_avoidance
    &&& post.barrier_avoidance == pre.barrier_avoidance
    &&& post.separation == pre.separation
    &&& post.cohesion == pre.cohesion
    &&& post.alignment == pre.alignment
    &&& sheep_wf(post)
    &&& dt == 0 ==> post.position == pre.position && post.momentum == pre.momentum
}

/// The integrator: drain every agent's accumulator into one momentum and
/// position update, then clear the accumulator. After this pass every
/// momentum is within its agent's speed limit, and a zero-length tick has
/// changed neither positions nor momenta.
pub fn move_sheep(sheep: &mut Vec<Sheep>, acc: &mut Vec<Accumulator>, dt: i64)
    requires
        old(sheep)@.len() == old(acc)@.len(),
        forall|j: int| 0 <= j < old(sheep)@.len() ==> sheep_wf(#[trigger] old(sheep)@[j]),
        forall|j: int| 0 <= j < old(acc)@.len() ==> acc_wf(#[trigger] old(acc)@[j]@),
        0 <= dt <= DT_LIMIT,
    ensures
        final(sheep)@.len() == old(sheep)@.len(),
        final(acc)@.len() == old(acc)@.len(),
        forall|j: int|
            0 <= j < old(sheep)@.len() ==> integrated_ok(
                old(sheep)@[j],
                old(acc)@[j]@,
                dt as int,
                #[trigger] final(sheep)@[j],
            ),
        forall|j: int|
            0 <= j < old(sheep)@.len() ==> len2_v(#[trigger] final(sheep)@[j].momentum@)
                <= final(sheep)@[j].max_speed.0 * final(sheep)@[j].max_speed.0,
        forall|j: int|
            0 <= j < old(acc)@.len() ==> #[trigger] final(acc)@[j]@.forces.len() == 0
                && final(acc)@[j]@.alignment.len() == 0,
        dt == 0 ==> forall|j: int|
            0 <= j < old(sheep)@.len() ==> #[trigger] final(sheep)@[j].position
                == old(sheep)@[j].position && final(sheep)@[j].momentum == old(
                sheep,
            )@[j].momentum,
{
    let ghost sheep0 = sheep@;
    let ghost acc0 = acc@;
    let n = sheep.len();
    let mut k: usize = 0;
    while k < n
        invariant
            n == sheep0.len(),
            n == acc0.len(),
            sheep@.len() == n,
            acc@.len() == n,
            k <= n,
            0 <= dt <= DT_LIMIT,
            forall|j: int| 0 <= j < n ==> sheep_wf(#[trigger] sheep0[j]),
            forall|j: int| 0 <= j < n ==> acc_wf(#[trigger] acc0[j]@),
            forall|j: int| k <= j < n ==> #[trigger] sheep@[j] == sheep0[j],
            forall|j: int| k <= j < n ==> #[trigger] acc@[j] == acc0[j],
            forall|j: int|
                0 <= j < k ==> integrated_ok(sheep0[j], acc0[j]@, dt as int, #[trigger] sheep@[j]),
            forall|j: int|
                0 <= j < k ==> #[trigger] acc@[j]@.forces.len() == 0 && acc@[j]@.alignment.len()
                    == 0,
        decreases n - k,
    {
        let cur = sheep[k];
        let updated = integrate_sheep(cur, &acc[k], dt);
        let slot = &mut sheep[k];
        *slot = updated;
        let entry = &mut acc[k];
        entry.forces.clear();
        entry.alignment.clear();
        proof {
            assert(views(entry.forces@) =~= Seq::<V2>::empty());
            assert(views(entry.alignment@) =~= Seq::<V2>::empty());
            assert(acc@[k as int]@.forces.len() == 0);
            assert(integrated_ok(sheep0[k as int], acc0[k as int]@, dt as int, sheep@[k as int]));
        }
        k = k + 1;
    }
}

} // verus!
