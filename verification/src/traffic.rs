//! The integer side of the traffic simulation: packet kinds, delivery
//! statistics, the pseudo-random generator that picks endpoints, and the choice
//! of broadcast destinations among the visible nodes.

use vstd::prelude::*;

verus! {

/// Type of traffic for different visualizations.
#[derive(Clone, Copy, Debug, PartialEq, Eq, Structural)]
pub enum PacketType {
    /// Random peer-to-peer unicast
    Unicast,
    /// Broadcast to all neighbors
    Broadcast,
}

/// Traffic statistics.
#[derive(Clone, Copy, Debug, PartialEq, Eq, Structural)]
pub struct TrafficStats {
    /// Total packets sent
    pub packets_sent: u64,
    /// Unicast packets sent
    pub unicast_sent: u64,
    /// Broadcast packets sent
    pub broadcast_sent: u64,
    /// Packets that arrived
    pub packets_delivered: u64,
}

impl Default for TrafficStats {
    fn default() -> (s: Self)
        ensures
            s == (TrafficStats { packets_sent: 0, unicast_sent: 0, broadcast_sent: 0, packets_delivered: 0 }),
    {
        TrafficStats { packets_sent: 0, unicast_sent: 0, broadcast_sent: 0, packets_delivered: 0 }
    }
}

/// Multiplier of the linear congruential generator (Numerical Recipes).
pub const LCG_MULTIPLIER: u64 = 6364136223846793005;

/// Seed of the generator of a new traffic simulation.
pub const LCG_SEED: u64 = 12345;

/// One step of the generator: `state * 6364136223846793005 + 1` modulo 2^64.
pub open spec fn lcg_step(state: u64) -> u64 {
    ((state as nat * LCG_MULTIPLIER as nat + 1) % 0x1_0000_0000_0000_0000nat) as u64
}

/// A node index drawn from generator output `r` among `visible` nodes (0 when none).
pub open spec fn node_of(r: u64, visible: u32) -> usize {
    if visible == 0 {
        0
    } else {
        ((r as usize) % (visible as usize)) as usize
    }
}

/// The simple random number generator of the traffic simulation.
pub struct TrafficRng {
    pub state: u64,
}

impl TrafficRng {
    /// A generator with the simulation's fixed seed.
    pub fn new() -> (rng: TrafficRng)
        ensures
            rng.state == LCG_SEED,
    {
        TrafficRng { state: LCG_SEED }
    }

    /// Advance the generator and return its new state.
    pub fn next(&mut self) -> (r: u64)
        ensures
            final(self).state == lcg_step(old(self).state),
            r == final(self).state,
    {
        let m = self.state.wrapping_mul(LCG_MULTIPLIER);
        let next = m.wrapping_add(1);
        proof {
            lemma_lcg_wrapping(old(self).state, m, next);
        }
        self.state = next;
        next
    }

    /// Draw a random index among `visible` nodes; 0 (without drawing) when none are visible.
    pub fn random_node(&mut self, visible: u32) -> (idx: usize)
        ensures
            visible == 0 ==> idx == 0 && final(self).state == old(self).state,
            visible != 0 ==> final(self).state == lcg_step(old(self).state) && idx == node_of(
                final(self).state,
                visible,
            ) && idx < visible,
    {
        if visible == 0 {
            return 0;
        }
        let r = self.next();
        (r as usize) % (visible as usize)
    }
}

/// The wrapping operations compute the generator step.
proof fn lemma_lcg_wrapping(s: u64, m: u64, next: u64)
    requires
        m == vstd::wrapping::u64_specs::wrapping_mul(s, LCG_MULTIPLIER),
        next == vstd::wrapping::u64_specs::wrapping_add(m, 1),
    ensures
        next == lcg_step(s),
{
    let p = s as nat * LCG_MULTIPLIER as nat;
    let r = 0x1_0000_0000_0000_0000nat;
    assert(m == p % r);
    vstd::arithmetic::div_mod::lemma_fundamental_div_mod(p as int, r as int);
    vstd::arithmetic::div_mod::lemma_fundamental_div_mod((p + 1) as int, r as int);
    vstd::arithmetic::div_mod::lemma_mod_add_multiples_vanish((p % r + 1) as int, r as int);
    vstd::arithmetic::div_mod::lemma_add_mod_noop(p as int, 1, r as int);
}

/// The destinations of one broadcast from `src`: `min(20, visible - 1)` draws, keeping
/// the draws that differ from `src`, in draw order, starting from generator state `state`.
/// Returns the final generator state and the destinations.
pub open spec fn broadcast_draws(state: u64, src: usize, visible: u32, draws: nat) -> (u64, Seq<usize>)
    decreases draws,
{
    if draws == 0 {
        (state, Seq::empty())
    } else {
        let (st, dests) = broadcast_draws(state, src, visible, (draws - 1) as nat);
        let next = lcg_step(st);
        let d = node_of(next, visible);
        (next, if d != src { dests.push(d) } else { dests })
    }
}

/// Number of destinations a broadcast tries among `visible` nodes: up to 20 neighbours.
pub open spec fn broadcast_fanout(visible: u32) -> nat {
    if 20 < visible - 1 {
        20
    } else {
        (visible - 1) as nat
    }
}

/// Choose the destinations of one broadcast from node `src` among `visible` nodes
/// (the 20-neighbour topology is approximated by up to 20 random visible nodes).
pub fn broadcast_targets(rng: &mut TrafficRng, src: usize, visible: u32) -> (dests: Vec<usize>)
    requires
        visible >= 2,
    ensures
        (final(rng).state, dests@) == broadcast_draws(old(rng).state, src, visible, broadcast_fanout(visible)),
        forall|k: int| 0 <= k < dests@.len() ==> dests@[k] != src && dests@[k] < visible,
{
    let neighbor_count: usize = if 20 < visible as usize - 1 {
        20
    } else {
        visible as usize - 1
    };
    let mut dests: Vec<usize> = Vec::new();
    let mut i: usize = 0;
    while i < neighbor_count
        invariant
            i <= neighbor_count,
            neighbor_count == broadcast_fanout(visible),
            visible >= 2,
            (rng.state, dests@) == broadcast_draws(old(rng).state, src, visible, i as nat),
            forall|k: int| 0 <= k < dests@.len() ==> dests@[k] != src && dests@[k] < visible,
        decreases neighbor_count - i,
    {
        let d = rng.random_node(visible);
        if d != src {
            dests.push(d);
        }
        i = i + 1;
    }
    dests
}

/// The generator state after `n` steps from `state`.
pub open spec fn lcg_iter(state: u64, n: nat) -> u64
    decreases n,
{
    if n == 0 {
        state
    } else {
        lcg_step(lcg_iter(state, (n - 1) as nat))
    }
}

/// The node drawn by the `k`-th step (counting from 1) of the generator from `state`.
pub open spec fn draw_at(state: u64, visible: u32, k: nat) -> usize {
    node_of(lcg_iter(state, k), visible)
}

proof fn lemma_draws_shape(state: u64, src: usize, visible: u32, n: nat)
    ensures
        broadcast_draws(state, src, visible, n).0 == lcg_iter(state, n),
        forall|k: nat| 1 <= k <= n && #[trigger] draw_at(state, visible, k) != src ==> broadcast_draws(
            state,
            src,
            visible,
            n,
        ).1.contains(draw_at(state, visible, k)),
        forall|j: int| 0 <= j < broadcast_draws(state, src, visible, n).1.len() ==> {
            let d = #[trigger] broadcast_draws(state, src, visible, n).1[j];
            d != src && exists|k: nat| 1 <= k <= n && d == #[trigger] draw_at(state, visible, k)
        },
    decreases n,
{
    if n > 0 {
        let m = (n - 1) as nat;
        lemma_draws_shape(state, src, visible, m);
        let prev = broadcast_draws(state, src, visible, m).1;
        let cur = broadcast_draws(state, src, visible, n).1;
        let d = draw_at(state, visible, n);
        assert(cur == if d != src { prev.push(d) } else { prev });
        assert forall|k: nat| 1 <= k <= n && #[trigger] draw_at(state, visible, k) != src implies cur.contains(
            draw_at(state, visible, k),
        ) by {
            if k < n {
                let j = choose|j: int| 0 <= j < prev.len() && prev[j] == draw_at(state, visible, k);
                assert(cur[j] == prev[j]);
            } else {
                assert(cur[prev.len() as int] == d);
            }
        }
        assert forall|j: int| 0 <= j < cur.len() implies {
            let e = #[trigger] cur[j];
            e != src && exists|k: nat| 1 <= k <= n && e == #[trigger] draw_at(state, visible, k)
        } by {
            if j < prev.len() {
                assert(cur[j] == prev[j]);
                let e = prev[j];
                let k = choose|k: nat| 1 <= k <= m && e == #[trigger] draw_at(state, visible, k);
                assert(1 <= k <= n && e == draw_at(state, visible, k));
            } else {
                assert(cur[j] == d);
                assert(1 <= n && d == draw_at(state, visible, n));
            }
        }
    }
}

/// A broadcast among `visible` nodes makes exactly `min(20, visible - 1)` draws of the
/// generator (so the generator ends that many steps further on); every draw that
/// differs from the source is a destination, and every destination is such a draw.
pub proof fn lemma_broadcast_draw_count(state: u64, src: usize, visible: u32)
    requires
        visible >= 2,
    ensures
        ({
            let n: nat = if visible - 1 < 20 { (visible - 1) as nat } else { 20 };
            let (end, dests) = broadcast_draws(state, src, visible, broadcast_fanout(visible));
            &&& end == lcg_iter(state, n)
            &&& forall|k: nat| 1 <= k <= n && #[trigger] draw_at(state, visible, k) != src ==> dests.contains(
                draw_at(state, visible, k),
            )
            &&& forall|j: int| 0 <= j < dests.len() ==> {
                let d = #[trigger] dests[j];
                d != src && exists|k: nat| 1 <= k <= n && d == #[trigger] draw_at(state, visible, k)
            }
        }),
{
    let n: nat = if visible - 1 < 20 { (visible - 1) as nat } else { 20 };
    assert(broadcast_fanout(visible) == n);
    lemma_draws_shape(state, src, visible, n);
    let r = broadcast_draws(state, src, visible, broadcast_fanout(visible));
    assert(r.0 == lcg_iter(state, n));
    assert(forall|k: nat| 1 <= k <= n && #[trigger] draw_at(state, visible, k) != src ==> r.1.contains(
        draw_at(state, visible, k),
    ));
    assert(forall|j: int| 0 <= j < r.1.len() ==> {
        let d = #[trigger] r.1[j];
        d != src && exists|k: nat| 1 <= k <= n && d == #[trigger] draw_at(state, visible, k)
    });
}

} // verus!
