//! The wiring plan between two layers of a spiking network.
//!
//! Every ordered pair (source unit, target unit) is visited source-major; a
//! draw decides whether the pair is linked and with which polarity. Links get
//! consecutive ids in visiting order. Where the draws come from (a seeded
//! generator, a replayed trace) is the caller's concern.
use vstd::arithmetic::div_mod::lemma_fundamental_div_mod_converse;
use vstd::prelude::*;

verus! {

/// The decision drawn for one ordered pair of units.
#[derive(Debug, Clone, Copy, PartialEq, Eq, Structural)]
pub struct WiringDraw {
    pub connect: bool,
    pub excitatory: bool,
}

/// One planned link from unit `pre` to unit `post`.
#[derive(Debug, Clone, Copy, PartialEq, Eq, Structural)]
pub struct LinkPlan {
    pub id: u32,
    pub pre: u32,
    pub post: u32,
    pub excitatory: bool,
}

/// The links planned for the first `n` pairs in source-major order.
pub open spec fn planned_links(from: Seq<u32>, to: Seq<u32>, draws: Seq<WiringDraw>, n: int) -> Seq<LinkPlan>
    decreases n,
{
    if n <= 0 {
        Seq::empty()
    } else {
        let prev = planned_links(from, to, draws, n - 1);
        let p = n - 1;
        if draws[p].connect {
            prev.push(
                LinkPlan {
                    id: prev.len() as u32,
                    pre: from[p / to.len() as int],
                    post: to[p % to.len() as int],
                    excitatory: draws[p].excitatory,
                },
            )
        } else {
            prev
        }
    }
}

proof fn lemma_planned_len(from: Seq<u32>, to: Seq<u32>, draws: Seq<WiringDraw>, n: int)
    requires
        n >= 0,
    ensures
        planned_links(from, to, draws, n).len() <= n,
    decreases n,
{
    if n > 0 {
        lemma_planned_len(from, to, draws, n - 1);
    }
}

/// Whether both layer indices name layers of a network with `layer_count`
/// layers; connecting layers outside the network is skipped.
pub fn layers_in_bounds(from_layer: usize, to_layer: usize, layer_count: usize) -> (r: bool)
    ensures
        r == (from_layer < layer_count && to_layer < layer_count),
{
    from_layer < layer_count && to_layer < layer_count
}

/// Plans the links between units `from_ids` and units `to_ids`, where
/// `draws[i * to_ids.len() + k]` is the draw for the pair
/// (`from_ids[i]`, `to_ids[k]`).
pub fn plan_links(from_ids: &Vec<u32>, to_ids: &Vec<u32>, draws: &Vec<WiringDraw>) -> (r: Vec<LinkPlan>)
    requires
        draws@.len() == from_ids@.len() * to_ids@.len(),
        from_ids@.len() * to_ids@.len() <= u32::MAX,
    ensures
        r@ == planned_links(from_ids@, to_ids@, draws@, draws@.len() as int),
{
    let m = to_ids.len();
    let mut r: Vec<LinkPlan> = Vec::new();
    let mut next_id: u32 = 0;
    let mut p: usize = 0;
    let mut i: usize = 0;
    while i < from_ids.len()
        invariant
            m == to_ids@.len(),
            draws@.len() == from_ids@.len() * m,
            from_ids@.len() * m <= u32::MAX,
            i <= from_ids@.len(),
            p == i * m,
            r@ == planned_links(from_ids@, to_ids@, draws@, p as int),
            next_id == r@.len(),
        decreases from_ids@.len() - i,
    {
        proof {
            vstd::arithmetic::mul::lemma_mul_inequality(i as int + 1, from_ids@.len() as int, m as int);
            vstd::arithmetic::mul::lemma_mul_is_distributive_add_other_way(m as int, i as int, 1);
        }
        let mut k: usize = 0;
        while k < m
            invariant
                m == to_ids@.len(),
                draws@.len() == from_ids@.len() * m,
                from_ids@.len() * m <= u32::MAX,
                i < from_ids@.len(),
                (i + 1) * m <= from_ids@.len() * m,
                (i + 1) * m == i * m + m,
                k <= m,
                p == i * m + k,
                r@ == planned_links(from_ids@, to_ids@, draws@, p as int),
                next_id == r@.len(),
            decreases m - k,
        {
            proof {
                lemma_fundamental_div_mod_converse(p as int, m as int, i as int, k as int);
                lemma_planned_len(from_ids@, to_ids@, draws@, p as int);
            }
            let d = draws[p];
            if d.connect {
                r.push(LinkPlan { id: next_id, pre: from_ids[i], post: to_ids[k], excitatory: d.excitatory });
                next_id = next_id + 1;
            }
            p = p + 1;
            k = k + 1;
        }
        i = i + 1;
    }
    r
}

} // verus!
