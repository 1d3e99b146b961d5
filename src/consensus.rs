//! Majority-vote consensus over the priority bands of a collective's agents.
use vstd::prelude::*;

verus! {

/// Outcome of a swarm-wide majority vote.
#[derive(Debug, Clone, Copy, PartialEq, Eq, Structural)]
pub enum ConsensusDecision {
    Explore,
    Concentrate,
    Retreat,
    Wait,
}

/// The band an agent's task priority falls in: above the upper threshold it
/// leans towards concentrating, below the lower one towards retreating, and
/// in between towards exploring.
#[derive(Debug, Clone, Copy, PartialEq, Eq, Structural)]
pub enum PriorityBand {
    Explore,
    Concentrate,
    Retreat,
}

/// How many agents fell in each band.
#[derive(Debug, Clone, Copy, PartialEq, Eq, Structural)]
pub struct BandCounts {
    pub explore: u64,
    pub concentrate: u64,
    pub retreat: u64,
}

/// Number of entries of `bands` equal to `b`.
pub open spec fn count_band(bands: Seq<PriorityBand>, b: PriorityBand) -> nat
    decreases bands.len(),
{
    if bands.len() == 0 {
        0
    } else {
        count_band(bands.drop_last(), b) + if bands.last() == b { 1nat } else { 0nat }
    }
}

/// The band with the largest count; ties go to explore, then concentrate,
/// then retreat.
pub open spec fn decision_for_counts(explore: int, concentrate: int, retreat: int) -> ConsensusDecision {
    if explore >= concentrate && explore >= retreat {
        ConsensusDecision::Explore
    } else if concentrate >= retreat {
        ConsensusDecision::Concentrate
    } else {
        ConsensusDecision::Retreat
    }
}

/// The collective decision for a sequence of bands.
pub open spec fn consensus_of(bands: Seq<PriorityBand>) -> ConsensusDecision {
    decision_for_counts(
        count_band(bands, PriorityBand::Explore) as int,
        count_band(bands, PriorityBand::Concentrate) as int,
        count_band(bands, PriorityBand::Retreat) as int,
    )
}

proof fn lemma_count_band_bounded(bands: Seq<PriorityBand>, b: PriorityBand)
    ensures
        count_band(bands, b) <= bands.len(),
    decreases bands.len(),
{
    if bands.len() > 0 {
        lemma_count_band_bounded(bands.drop_last(), b);
    }
}

proof fn lemma_count_band_is_multiplicity(bands: Seq<PriorityBand>, b: PriorityBand)
    ensures
        count_band(bands, b) == bands.to_multiset().count(b),
    decreases bands.len(),
{
    if bands.len() > 0 {
        let init = bands.drop_last();
        lemma_count_band_is_multiplicity(init, b);
        assert(init.push(bands.last()) == bands);
        vstd::seq_lib::to_multiset_build(init, bands.last());
    } else {
        bands.to_multiset_ensures();
        assert(bands.to_multiset().len() == 0);
    }
}

/// The vote is reproducible: it depends only on how many agents fell in each
/// band, never on the order in which the agents are visited, and two
/// collectives with the same band counts reach the same decision.
pub proof fn lemma_consensus_order_independent(a: Seq<PriorityBand>, b: Seq<PriorityBand>)
    requires
        a.to_multiset() == b.to_multiset(),
    ensures
        consensus_of(a) == consensus_of(b),
        forall|x: PriorityBand| count_band(a, x) == count_band(b, x),
{
    assert forall|x: PriorityBand| count_band(a, x) == count_band(b, x) by {
        lemma_count_band_is_multiplicity(a, x);
        lemma_count_band_is_multiplicity(b, x);
    }
}

/// The winning band is one with the largest count, and the vote of a
/// collective never comes out as `Wait`.
pub proof fn lemma_consensus_is_majority(bands: Seq<PriorityBand>)
    ensures
        consensus_of(bands) != ConsensusDecision::Wait,
        consensus_of(bands) == ConsensusDecision::Explore ==> count_band(bands, PriorityBand::Explore)
            >= count_band(bands, PriorityBand::Concentrate) && count_band(bands, PriorityBand::Explore)
            >= count_band(bands, PriorityBand::Retreat),
        consensus_of(bands) == ConsensusDecision::Concentrate ==> count_band(bands, PriorityBand::Concentrate)
            > count_band(bands, PriorityBand::Explore) && count_band(bands, PriorityBand::Concentrate)
            >= count_band(bands, PriorityBand::Retreat),
        consensus_of(bands) == ConsensusDecision::Retreat ==> count_band(bands, PriorityBand::Retreat)
            > count_band(bands, PriorityBand::Explore) && count_band(bands, PriorityBand::Retreat)
            > count_band(bands, PriorityBand::Concentrate),
{
}

/// Counts the agents in each band, in one pass over `bands`.
pub fn tally_bands(bands: &Vec<PriorityBand>) -> (r: BandCounts)
    ensures
        r.explore == count_band(bands@, PriorityBand::Explore),
        r.concentrate == count_band(bands@, PriorityBand::Concentrate),
        r.retreat == count_band(bands@, PriorityBand::Retreat),
{
    let mut explore: u64 = 0;
    let mut concentrate: u64 = 0;
    let mut retreat: u64 = 0;
    let mut i: usize = 0;
    while i < bands.len()
        invariant
            i <= bands.len(),
            explore == count_band(bands@.take(i as int), PriorityBand::Explore),
            concentrate == count_band(bands@.take(i as int), PriorityBand::Concentrate),
            retreat == count_band(bands@.take(i as int), PriorityBand::Retreat),
        decreases bands.len() - i,
    {
        let ghost before = bands@.take(i as int);
        assert(bands@.take(i as int + 1).drop_last() == before);
        proof {
            lemma_count_band_bounded(before, PriorityBand::Explore);
            lemma_count_band_bounded(before, PriorityBand::Concentrate);
            lemma_count_band_bounded(before, PriorityBand::Retreat);
        }
        match bands[i] {
            PriorityBand::Explore => explore = explore + 1,
            PriorityBand::Concentrate => concentrate = concentrate + 1,
            PriorityBand::Retreat => retreat = retreat + 1,
        }
        i = i + 1;
    }
    assert(bands@.take(bands@.len() as int) == bands@);
    BandCounts { explore, concentrate, retreat }
}

/// Picks the band with the most agents, breaking ties in the fixed order
/// explore, concentrate, retreat.
pub fn decide_from_counts(counts: &BandCounts) -> (r: ConsensusDecision)
    ensures
        r == decision_for_counts(counts.explore as int, counts.concentrate as int, counts.retreat as int),
        r != ConsensusDecision::Wait,
{
    let top = if counts.explore >= counts.concentrate { counts.explore } else { counts.concentrate };
    let top = if top >= counts.retreat { top } else { counts.retreat };
    if top == counts.explore {
        ConsensusDecision::Explore
    } else if top == counts.concentrate {
        ConsensusDecision::Concentrate
    } else {
        ConsensusDecision::Retreat
    }
}

/// Majority vote of a collective whose agents fell in `bands`.
pub fn consensus_majority(bands: &Vec<PriorityBand>) -> (r: ConsensusDecision)
    ensures
        r == consensus_of(bands@),
{
    let counts = tally_bands(bands);
    decide_from_counts(&counts)
}

} // verus!
