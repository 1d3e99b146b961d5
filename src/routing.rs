//! Shortest routes between zones over a matrix of integer travel distances.
//!
//! Zone `i` of a route planner is row and column `i` of the distance matrix;
//! every zone can be reached directly from every other one.
use vstd::prelude::*;

verus! {

/// Every row of `w` has one entry per zone.
pub open spec fn is_square(w: Seq<Vec<u32>>) -> bool {
    forall|i: int| 0 <= i < w.len() ==> #[trigger] w[i]@.len() == w.len()
}

/// Distance from zone `a` to zone `b`.
pub open spec fn leg(w: Seq<Vec<u32>>, a: usize, b: usize) -> int {
    w[a as int]@[b as int] as int
}

/// Total distance along the walk `p`.
pub open spec fn walk_cost(w: Seq<Vec<u32>>, p: Seq<usize>) -> int
    decreases p.len(),
{
    if p.len() <= 1 {
        0
    } else {
        walk_cost(w, p.drop_last()) + leg(w, p[p.len() - 2], p.last())
    }
}

/// `p` is a walk through zones below `n` from `from` to `to`.
pub open spec fn is_walk(n: nat, p: Seq<usize>, from: usize, to: usize) -> bool {
    &&& p.len() >= 1
    &&& p[0] == from
    &&& p.last() == to
    &&& forall|i: int| 0 <= i < p.len() ==> #[trigger] p[i] < n
}

/// Number of zones not yet settled.
spec fn open_count(done: Seq<bool>) -> nat
    decreases done.len(),
{
    if done.len() == 0 {
        0
    } else {
        open_count(done.drop_last()) + if done.last() { 0nat } else { 1nat }
    }
}

proof fn lemma_open_count_settle(done: Seq<bool>, i: int)
    requires
        0 <= i < done.len(),
        !done[i],
    ensures
        open_count(done.update(i, true)) + 1 == open_count(done),
    decreases done.len(),
{
    let u = done.update(i, true);
    if i == done.len() - 1 {
        assert(u.drop_last() == done.drop_last());
    } else {
        assert(u.drop_last() == done.drop_last().update(i, true));
        lemma_open_count_settle(done.drop_last(), i);
    }
}

proof fn lemma_walk_cost_push(w: Seq<Vec<u32>>, p: Seq<usize>, v: usize)
    requires
        p.len() >= 1,
    ensures
        walk_cost(w, p.push(v)) == walk_cost(w, p) + leg(w, p.last(), v),
{
    assert(p.push(v).drop_last() == p);
}

proof fn lemma_walk_cost_nonneg(w: Seq<Vec<u32>>, p: Seq<usize>)
    ensures
        walk_cost(w, p) >= 0,
    decreases p.len(),
{
    if p.len() > 1 {
        lemma_walk_cost_nonneg(w, p.drop_last());
    }
}

proof fn lemma_prefix_cost(w: Seq<Vec<u32>>, p: Seq<usize>, j: int)
    requires
        1 <= j <= p.len(),
    ensures
        walk_cost(w, p.take(j)) <= walk_cost(w, p),
    decreases p.len() - j,
{
    if j < p.len() {
        lemma_prefix_cost(w, p, j + 1);
        assert(p.take(j + 1).drop_last() == p.take(j));
    } else {
        assert(p.take(j) == p);
    }
}

/// Index of the first zone of `q` that is not settled.
proof fn first_open(q: Seq<usize>, done: Seq<bool>, n: nat) -> (k: int)
    requires
        q.len() >= 1,
        done.len() == n,
        forall|i: int| 0 <= i < q.len() ==> #[trigger] q[i] < n,
        !done[q.last() as int],
    ensures
        0 <= k < q.len(),
        !done[q[k] as int],
        forall|i: int| 0 <= i < k ==> done[#[trigger] q[i] as int],
    decreases q.len(),
{
    if q.len() == 1 {
        0
    } else {
        let init = q.drop_last();
        if exists|i: int| 0 <= i < init.len() && !done[#[trigger] init[i] as int] {
            let j = choose|i: int| 0 <= i < init.len() && !done[#[trigger] init[i] as int];
            let sub = init.take(j + 1);
            assert(sub.last() == init[j]);
            let k = first_open(sub, done, n);
            assert(sub[k] == q[k]);
            assert forall|i: int| 0 <= i < k implies done[#[trigger] q[i] as int] by {
                assert(sub[i] == q[i]);
            }
            k
        } else {
            assert forall|i: int| 0 <= i < q.len() - 1 implies done[#[trigger] q[i] as int] by {
                assert(init[i] == q[i]);
            }
            q.len() - 1
        }
    }
}

fn copy_walk(p: &Vec<usize>) -> (r: Vec<usize>)
    ensures
        r@ == p@,
{
    let mut r: Vec<usize> = Vec::new();
    let mut i: usize = 0;
    while i < p.len()
        invariant
            i <= p@.len(),
            r@ == p@.take(i as int),
        decreases p@.len() - i,
    {
        r.push(p[i]);
        assert(p@.take(i as int + 1) == p@.take(i as int).push(p@[i as int]));
        i = i + 1;
    }
    assert(p@.take(p@.len() as int) == p@);
    r
}

/// A shortest walk from zone `start` to zone `end` (Dijkstra's algorithm):
/// it starts at `start`, ends at `end`, and no walk between them is shorter.
pub fn shortest_path(w: &Vec<Vec<u32>>, start: usize, end: usize) -> (r: Vec<usize>)
    requires
        is_square(w@),
        start < w@.len(),
        end < w@.len(),
    ensures
        is_walk(w@.len(), r@, start, end),
        forall|q: Seq<usize>| is_walk(w@.len(), q, start, end) ==> walk_cost(w@, r@) <= walk_cost(w@, q),
{
    let n = w.len();
    let ghost ww = w@;
    let ghost nn = n as nat;
    let mut d: Vec<u64> = Vec::new();
    let mut done: Vec<bool> = Vec::new();
    let mut paths: Vec<Vec<usize>> = Vec::new();
    let mut i: usize = 0;
    while i < n
        invariant
            i <= n,
            d@.len() == i,
            done@.len() == i,
            paths@.len() == i,
            forall|v: int| 0 <= v < i ==> d@[v] == u64::MAX && !done@[v],
        decreases n - i,
    {
        d.push(u64::MAX);
        done.push(false);
        paths.push(Vec::new());
        i = i + 1;
    }
    d.set(start, 0);
    let mut first: Vec<usize> = Vec::new();
    first.push(start);
    paths.set(start, first);
    // `d[v]` is the shortest distance to `v` found so far and `paths[v]` a walk
    // of that length; a settled zone's distance is final, and every open zone
    // is no farther than any settled zone plus the leg between them.
    loop
        invariant
            n == w@.len(),
            ww == w@,
            nn == n,
            is_square(w@),
            start < n,
            end < n,
            d@.len() == n,
            done@.len() == n,
            paths@.len() == n,
            d@[start as int] == 0,
            !done@[end as int],
            !done@[start as int] ==> forall|v: int| 0 <= v < n ==> !done@[v] && (v != start ==> d@[v] == u64::MAX),
            forall|v: int| 0 <= v < n ==> d@[v] == u64::MAX || d@[v] <= u32::MAX,
            forall|v: int| 0 <= v < n && done@[v] ==> d@[v] != u64::MAX,
            forall|v: int|
                0 <= v < n && d@[v] != u64::MAX ==> is_walk(nn, #[trigger] paths@[v]@, start, v as usize)
                    && walk_cost(ww, paths@[v]@) == d@[v],
            forall|v: int, q: Seq<usize>|
                0 <= v < n && done@[v] && is_walk(nn, q, start, v as usize) ==> d@[v] <= walk_cost(ww, q),
            forall|a: int, b: int|
                0 <= a < n && 0 <= b < n && done@[a] && !done@[b] ==> d@[b] <= d@[a] + leg(ww, a as usize, b as usize),
        decreases open_count(done@),
    {
        // Select the open zone with the smallest known distance.
        let mut best: usize = n;
        let mut best_d: u64 = u64::MAX;
        let mut j: usize = 0;
        while j < n
            invariant
                n == d@.len(),
                n == done@.len(),
                j <= n,
                (best < n && !done@[best as int] && d@[best as int] == best_d && best_d != u64::MAX) || (best == n
                    && best_d == u64::MAX),
                forall|v: int| 0 <= v < j && !done@[v] ==> best_d <= d@[v],
            decreases n - j,
        {
            if !done[j] && d[j] < best_d {
                best = j;
                best_d = d[j];
            }
            j = j + 1;
        }
        proof {
            if done@[start as int] {
                assert(d@[end as int] <= d@[start as int] + leg(ww, start, end));
            }
        }
        let u = best;
        assert(u < n);
        // Every walk to `u` is at least as long as its known distance.
        proof {
            assert forall|q: Seq<usize>| is_walk(nn, q, start, u) implies d@[u as int] <= walk_cost(ww, q) by {
                let k = first_open(q, done@, nn);
                let x = q[k];
                lemma_prefix_cost(ww, q, k + 1);
                if k == 0 {
                    lemma_walk_cost_nonneg(ww, q.take(1));
                } else {
                    let y = q[k - 1];
                    let pre = q.take(k);
                    assert(is_walk(nn, pre, start, y));
                    assert(q.take(k + 1) == pre.push(x));
                    lemma_walk_cost_push(ww, pre, x);
                }
            }
        }
        proof {
            lemma_open_count_settle(done@, u as int);
            if !done@[start as int] {
                assert(u == start);
            }
            assert forall|x: int| 0 <= x < n && !done@[x] && d@[x] == u64::MAX implies d@[u as int] == 0 by {
                if done@[start as int] {
                    assert(d@[x] <= d@[start as int] + leg(ww, start, x as usize));
                }
            }
        }
        let ghost done0 = done@;
        done.set(u, true);
        if u == end {
            return copy_walk(&paths[end]);
        }
        // Relax the zones still open through `u`.
        let du = d[u];
        let ghost d0 = d@;
        let ghost p0 = paths@;
        let mut v: usize = 0;
        while v < n
            invariant
                n == w@.len(),
                ww == w@,
                nn == n,
                is_square(w@),
                u < n,
                start < n,
                d@.len() == n,
                paths@.len() == n,
                done@.len() == n,
                d0.len() == n,
                p0.len() == n,
                du == d0[u as int],
                du <= u32::MAX,
                done@[u as int],
                d@[u as int] == du,
                paths@[u as int] == p0[u as int],
                is_walk(nn, p0[u as int]@, start, u),
                walk_cost(ww, p0[u as int]@) == du,
                v <= n,
                forall|x: int| 0 <= x < n ==> d@[x] <= d0[x],
                forall|x: int| 0 <= x < n && (v <= x || done@[x]) ==> d@[x] == d0[x] && paths@[x] == p0[x],
                forall|x: int| 0 <= x < v && !done@[x] ==> d@[x] <= du + leg(ww, u, x as usize),
                forall|x: int| 0 <= x < n ==> d@[x] == u64::MAX || d@[x] <= u32::MAX,
                forall|x: int|
                    0 <= x < n && d@[x] != u64::MAX ==> is_walk(nn, #[trigger] paths@[x]@, start, x as usize)
                        && walk_cost(ww, paths@[x]@) == d@[x],
                forall|x: int| 0 <= x < n && !done@[x] && d0[x] == u64::MAX ==> du == 0,
            decreases n - v,
        {
            if !done[v] {
                let row = &w[u];
                assert(row@.len() == n);
                let nd = du + row[v] as u64;
                if nd < d[v] {
                    proof {
                        lemma_walk_cost_push(ww, p0[u as int]@, v);
                        assert(d@[v as int] == d0[v as int]);
                        if d0[v as int] == u64::MAX {
                            assert(du == 0);
                        }
                        assert(nd <= u32::MAX);
                    }
                    let mut np = copy_walk(&paths[u]);
                    np.push(v);
                    d.set(v, nd);
                    paths.set(v, np);
                }
            }
            v = v + 1;
        }
    }
}

/// Total distance along `route`, or `None` when it exceeds the `u32` range.
pub fn route_distance(w: &Vec<Vec<u32>>, route: &Vec<usize>) -> (r: Option<u32>)
    requires
        is_square(w@),
        forall|i: int| 0 <= i < route@.len() ==> #[trigger] route@[i] < w@.len(),
    ensures
        r is Some <==> walk_cost(w@, route@) <= u32::MAX,
        r matches Some(total) ==> total == walk_cost(w@, route@),
{
    if route.len() == 0 {
        return Some(0);
    }
    let mut total: u32 = 0;
    let mut i: usize = 1;
    while i < route.len()
        invariant
            is_square(w@),
            forall|k: int| 0 <= k < route@.len() ==> #[trigger] route@[k] < w@.len(),
            1 <= i <= route@.len(),
            total == walk_cost(w@, route@.take(i as int)),
        decreases route@.len() - i,
    {
        let a = route[i - 1];
        let b = route[i];
        let row = &w[a];
        assert(row@.len() == w@.len());
        let ghost pre = route@.take(i as int);
        assert(route@.take(i as int + 1) == pre.push(b));
        assert(pre.last() == a);
        proof {
            lemma_walk_cost_push(w@, pre, b);
        }
        match total.checked_add(row[b]) {
            Some(t) => total = t,
            None => {
                proof {
                    lemma_prefix_cost(w@, route@, i as int + 1);
                }
                return None;
            },
        }
        i = i + 1;
    }
    assert(route@.take(route@.len() as int) == route@);
    Some(total)
}

/// `route` starts at `start`, then visits every zone of `targets` exactly
/// once and nothing else; each step goes to a nearest zone not yet visited.
pub open spec fn is_greedy_tour(w: Seq<Vec<u32>>, start: usize, targets: Set<usize>, route: Seq<usize>) -> bool {
    &&& route.len() >= 1
    &&& route[0] == start
    &&& forall|i: int| 1 <= i < route.len() ==> targets.contains(#[trigger] route[i])
    &&& forall|i: int, j: int| 1 <= i < j < route.len() ==> route[i] != route[j]
    &&& forall|z: usize| targets.contains(z) ==> exists|i: int| 1 <= i < route.len() && #[trigger] route[i] == z
    &&& forall|i: int, z: usize|
        #![trigger route[i], targets.contains(z)]
        1 <= i < route.len() && targets.contains(z) && !route.subrange(1, i).contains(z) ==> leg(
            w,
            route[i - 1],
            route[i],
        ) <= leg(w, route[i - 1], z)
}

/// Position of `x` in `v`, if it occurs.
fn position_of(v: &Vec<usize>, x: usize) -> (r: Option<usize>)
    ensures
        r matches Some(i) ==> i < v@.len() && v@[i as int] == x,
        r is None <==> !v@.contains(x),
{
    let mut i: usize = 0;
    while i < v.len()
        invariant
            i <= v@.len(),
            forall|k: int| 0 <= k < i ==> v@[k] != x,
        decreases v@.len() - i,
    {
        if v[i] == x {
            return Some(i);
        }
        i = i + 1;
    }
    None
}

/// Nearest-neighbour tour from `start` through every zone of `targets`
/// (duplicates are visited once); ties go to the zone listed first.
pub fn tsp_greedy(w: &Vec<Vec<u32>>, start: usize, targets: &Vec<usize>) -> (route: Vec<usize>)
    requires
        is_square(w@),
        start < w@.len(),
        forall|i: int| 0 <= i < targets@.len() ==> #[trigger] targets@[i] < w@.len(),
    ensures
        is_greedy_tour(w@, start, targets@.to_set(), route@),
{
    let ghost tset = targets@.to_set();
    // The distinct targets, in order of first occurrence.
    let mut remaining: Vec<usize> = Vec::new();
    let mut i: usize = 0;
    while i < targets.len()
        invariant
            i <= targets@.len(),
            forall|a: int, b: int| 0 <= a < b < remaining@.len() ==> remaining@[a] != remaining@[b],
            forall|k: int| 0 <= k < remaining@.len() ==> targets@.contains(#[trigger] remaining@[k]),
            forall|k: int| 0 <= k < i ==> remaining@.contains(#[trigger] targets@[k]),
        decreases targets@.len() - i,
    {
        let z = targets[i];
        let ghost old_rem = remaining@;
        if position_of(&remaining, z).is_none() {
            remaining.push(z);
            assert(remaining@.last() == z);
        }
        proof {
            assert forall|k: int| 0 <= k < i + 1 implies remaining@.contains(#[trigger] targets@[k]) by {
                if k < i {
                    assert(old_rem.contains(targets@[k]));
                    let j = choose|j: int| 0 <= j < old_rem.len() && old_rem[j] == targets@[k];
                    assert(remaining@[j] == targets@[k]);
                } else if remaining@.len() > old_rem.len() {
                    assert(remaining@[remaining@.len() - 1] == z);
                }
            }
        }
        i = i + 1;
    }
    let mut route: Vec<usize> = Vec::new();
    route.push(start);
    let mut current = start;
    while remaining.len() > 0
        invariant
            is_square(w@),
            tset == targets@.to_set(),
            forall|k: int| 0 <= k < targets@.len() ==> #[trigger] targets@[k] < w@.len(),
            route@.len() >= 1,
            route@[0] == start,
            current == route@.last(),
            current < w@.len(),
            forall|a: int, b: int| 0 <= a < b < remaining@.len() ==> remaining@[a] != remaining@[b],
            forall|k: int| 0 <= k < remaining@.len() ==> tset.contains(#[trigger] remaining@[k]),
            forall|k: int| 1 <= k < route@.len() ==> tset.contains(#[trigger] route@[k]),
            forall|a: int, b: int| 1 <= a < b < route@.len() ==> route@[a] != route@[b],
            forall|a: int, b: int| 1 <= a < route@.len() && 0 <= b < remaining@.len() ==> route@[a] != remaining@[b],
            forall|z: usize| tset.contains(z) ==> #[trigger] remaining@.contains(z) || route@.subrange(1, route@.len() as int).contains(z),
            forall|k: int, z: usize|
                #![trigger route@[k], tset.contains(z)]
                1 <= k < route@.len() && tset.contains(z) && !route@.subrange(1, k).contains(z) ==> leg(
                    w@,
                    route@[k - 1],
                    route@[k],
                ) <= leg(w@, route@[k - 1], z),
        decreases remaining@.len(),
    {
        let row = &w[current];
        assert(row@.len() == w@.len());
        let mut best: usize = 0;
        assert(tset.contains(remaining@[0]));
        let mut j: usize = 1;
        while j < remaining.len()
            invariant
                row@.len() == w@.len(),
                0 < remaining@.len(),
                best < remaining@.len(),
                j <= remaining@.len(),
                forall|k: int| 0 <= k < remaining@.len() ==> #[trigger] remaining@[k] < w@.len(),
                forall|k: int| 0 <= k < j ==> row@[remaining@[best as int] as int] <= row@[#[trigger] remaining@[k] as int],
            decreases remaining@.len() - j,
        {
            if row[remaining[j]] < row[remaining[best]] {
                best = j;
            }
            j = j + 1;
        }
        let next = remaining[best];
        let ghost old_route = route@;
        let ghost old_rem = remaining@;
        remaining.remove(best);
        route.push(next);
        proof {
            assert(route@.subrange(1, route@.len() as int) == old_route.subrange(1, old_route.len() as int).push(next));
            assert forall|z: usize| tset.contains(z) implies #[trigger] remaining@.contains(z) || route@.subrange(
                1,
                route@.len() as int,
            ).contains(z) by {
                if old_rem.contains(z) {
                    let k = choose|k: int| 0 <= k < old_rem.len() && old_rem[k] == z;
                    if k < best {
                        assert(remaining@[k] == z);
                    } else if k > best {
                        assert(remaining@[k - 1] == z);
                    } else {
                        assert(route@.subrange(1, route@.len() as int).last() == z);
                    }
                } else {
                    let s0 = old_route.subrange(1, old_route.len() as int);
                    let k = choose|k: int| 0 <= k < s0.len() && s0[k] == z;
                    assert(route@.subrange(1, route@.len() as int)[k] == z);
                }
            }
            assert forall|k: int, z: usize|
                #![trigger route@[k], tset.contains(z)]
                1 <= k < route@.len() && tset.contains(z) && !route@.subrange(1, k).contains(z) implies leg(
                w@,
                route@[k - 1],
                route@[k],
            ) <= leg(w@, route@[k - 1], z) by {
                if k < route@.len() - 1 {
                    assert(route@.subrange(1, k) == old_route.subrange(1, k));
                    assert(old_route[k] == route@[k]);
                    assert(old_route[k - 1] == route@[k - 1]);
                } else {
                    assert(route@.subrange(1, k) == old_route.subrange(1, old_route.len() as int));
                    assert(old_rem.contains(z));
                    let m = choose|m: int| 0 <= m < old_rem.len() && old_rem[m] == z;
                    assert(row@[old_rem[best as int] as int] <= row@[old_rem[m] as int]);
                }
            }
        }
        current = next;
    }
    proof {
        assert forall|z: usize| tset.contains(z) implies exists|i: int| 1 <= i < route@.len() && #[trigger] route@[i] == z by {
            let s0 = route@.subrange(1, route@.len() as int);
            assert(!remaining@.contains(z));
            assert(s0.contains(z));
            let k = choose|k: int| 0 <= k < s0.len() && s0[k] == z;
            assert(route@[k + 1] == z);
        }
    }
    route
}

} // verus!
