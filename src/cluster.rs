//! Exact-duplicate and near-duplicate clustering of image records.

use vstd::prelude::*;
use crate::fingerprint::{distance, lemma_distance_symmetric, phash_distance, PHASH_THRESHOLD};
use crate::record::{copy_text, ImageInfo};

verus! {

/// The hash text at position `m`, for a position that holds one.
pub open spec fn key(hs: Seq<Option<String>>, m: int) -> Seq<char> {
    hs[m].unwrap()@
}

/// Two positions whose hashes lie within the similarity threshold.
pub open spec fn linked(hs: Seq<Option<String>>, a: usize, b: usize) -> bool {
    distance(key(hs, a as int), key(hs, b as int)) <= PHASH_THRESHOLD
}

/// Member `k` of a group is linked to some member before it.
pub open spec fn linked_before(hs: Seq<Option<String>>, g: Seq<usize>, k: int) -> bool {
    exists|j: int| 0 <= j < k && linked(hs, g[j], g[k])
}

/// Every member after the first is linked to an earlier one, so that a
/// chain of links joins any two members.
pub open spec fn is_chain(hs: Seq<Option<String>>, g: Seq<usize>) -> bool {
    forall|k: int| 0 < k < g.len() ==> #[trigger] linked_before(hs, g, k)
}

/// At least two positions, in increasing order, each holding a hash.
pub open spec fn valid_group(hs: Seq<Option<String>>, g: Seq<usize>) -> bool {
    &&& g.len() >= 2
    &&& forall|a: int| 0 <= a < g.len() ==> #[trigger] g[a] < hs.len() && hs[g[a] as int] is Some
    &&& forall|a: int, b: int| 0 <= a < b < g.len() ==> g[a] < g[b]
}

/// No position belongs to two groups.
pub open spec fn disjoint(gs: Seq<Seq<usize>>) -> bool {
    forall|g1: int, g2: int, a: int, b: int|
        0 <= g1 < gs.len() && 0 <= g2 < gs.len() && g1 != g2 && 0 <= a < gs[g1].len() && 0
            <= b < gs[g2].len() ==> #[trigger] gs[g1][a] != #[trigger] gs[g2][b]
}

pub open spec fn similar_groups_ok(hs: Seq<Option<String>>, gs: Seq<Seq<usize>>) -> bool {
    &&& forall|g: int| 0 <= g < gs.len() ==> valid_group(hs, #[trigger] gs[g]) && is_chain(hs, gs[g])
    &&& disjoint(gs)
}

/// Whether hash `h` lies within the threshold of the hash of some member of `group`.
fn near_any(hashes: &Vec<Option<String>>, group: &Vec<usize>, h: &String) -> (r: bool)
    requires
        forall|a: int| 0 <= a < group@.len() ==> #[trigger] group@[a] < hashes@.len() && hashes@[group@[a] as int] is Some,
    ensures
        r == exists|a: int| 0 <= a < group@.len() && distance(key(hashes@, group@[a] as int), h@) <= PHASH_THRESHOLD,
{
    let mut a: usize = 0;
    while a < group.len()
        invariant
            a <= group@.len(),
            forall|a: int| 0 <= a < group@.len() ==> #[trigger] group@[a] < hashes@.len() && hashes@[group@[a] as int] is Some,
            forall|b: int| 0 <= b < a ==> distance(key(hashes@, group@[b] as int), h@) > PHASH_THRESHOLD,
        decreases group@.len() - a,
    {
        let m = group[a];
        let d = match &hashes[m] {
            Some(t) => phash_distance(t.as_str(), h.as_str()),
            None => u32::MAX,
        };
        if d <= PHASH_THRESHOLD {
            return true;
        }
        a += 1;
    }
    false
}

/// Nothing that the greedy pass left ungrouped could have joined a group:
/// no two ungrouped hashes are linked, and an ungrouped hash is linked to
/// no group member that comes before it.
pub open spec fn none_left_out(hs: Seq<Option<String>>, gs: Seq<Seq<usize>>) -> bool {
    &&& forall|s: int, m: int|
        #![trigger linked(hs, s as usize, m as usize)]
        0 <= s < m < hs.len() && hs[s] is Some && hs[m] is Some && !in_some_group(gs, s as usize) && !in_some_group(
            gs,
            m as usize,
        ) ==> !linked(hs, s as usize, m as usize)
    &&& forall|g: int, a: int, m: int|
        #![trigger linked(hs, gs[g][a], m as usize)]
        0 <= g < gs.len() && 0 <= a < gs[g].len() && 0 <= m < hs.len() && hs[m] is Some && !in_some_group(gs, m as usize)
            && gs[g][a] < m ==> !linked(hs, gs[g][a], m as usize)
}

/// Position `m` lies in none of the groups before group `g`.
pub open spec fn in_no_group_before(gs: Seq<Seq<usize>>, g: int, m: usize) -> bool {
    forall|h: int| 0 <= h < g ==> !(#[trigger] gs[h]).contains(m)
}

/// Position `m` lies in none of the groups seeded before position `s`.
pub open spec fn in_no_group_seeded_before(gs: Seq<Seq<usize>>, s: int, m: usize) -> bool {
    forall|h: int| 0 <= h < gs.len() && (#[trigger] gs[h])[0] < s ==> !gs[h].contains(m)
}

/// Position `m` is within the threshold of a member of `g` that comes before it.
pub open spec fn joins(hs: Seq<Option<String>>, g: Seq<usize>, m: int) -> bool {
    exists|a: int| 0 <= a < g.len() && g[a] < m && #[trigger] linked(hs, g[a], m as usize)
}

/// The groups are those of the greedy pass: they come in increasing order
/// of their seeds (first members); a position after a group's seed that no
/// earlier group took is in the group exactly when it is within the
/// threshold of a member before it; and an ungrouped position is within
/// the threshold of no later position that no group seeded before it took.
pub open spec fn greedy_pass(hs: Seq<Option<String>>, gs: Seq<Seq<usize>>) -> bool {
    &&& forall|g1: int, g2: int| 0 <= g1 < g2 < gs.len() ==> (#[trigger] gs[g1])[0] < (#[trigger] gs[g2])[0]
    &&& forall|g: int, m: int|
        #![trigger gs[g].contains(m as usize)]
        #![trigger joins(hs, gs[g], m)]
        0 <= g < gs.len() && gs[g][0] < m < hs.len() && hs[m] is Some && in_no_group_before(gs, g, m as usize) ==> (
        gs[g].contains(m as usize) <==> joins(hs, gs[g], m))
    &&& forall|s: int, m: int|
        #![trigger linked(hs, s as usize, m as usize)]
        0 <= s < m < hs.len() && hs[s] is Some && hs[m] is Some && !in_some_group(gs, s as usize)
            && in_no_group_seeded_before(gs, s, m as usize) ==> !linked(hs, s as usize, m as usize)
}

/// Greedy near-duplicate clustering over the positions that hold a hash.
/// Positions are taken in order; each one not yet grouped seeds a group,
/// and each later ungrouped position joins it if its hash is within the
/// threshold of any member that joined before it. Groups of one are dropped.
pub fn similar_groups(hashes: &Vec<Option<String>>) -> (r: Vec<Vec<usize>>)
    ensures
        similar_groups_ok(hashes@, r@.map_values(|v: Vec<usize>| v@)),
        none_left_out(hashes@, r@.map_values(|v: Vec<usize>| v@)),
        greedy_pass(hashes@, r@.map_values(|v: Vec<usize>| v@)),
{
    let n = hashes.len();
    let mut processed: Vec<bool> = Vec::new();
    while processed.len() < n
        invariant
            processed@.len() <= n,
            forall|m: int| 0 <= m < processed@.len() ==> !processed@[m],
        decreases n - processed@.len(),
    {
        processed.push(false);
    }
    let mut groups: Vec<Vec<usize>> = Vec::new();
    let ghost mut gs: Seq<Seq<usize>> = Seq::empty();
    let mut i: usize = 0;
    while i < n
        invariant
            n == hashes@.len(),
            processed@.len() == n,
            i <= n,
            gs.len() == groups@.len(),
            forall|g: int| 0 <= g < gs.len() ==> #[trigger] groups@[g]@ == gs[g],
            similar_groups_ok(hashes@, gs),
            forall|g: int, a: int| 0 <= g < gs.len() && 0 <= a < gs[g].len() ==> processed@[#[trigger] gs[g][a] as int],
            forall|m: int| 0 <= m < n && #[trigger] processed@[m] ==> in_some_group(gs, m as usize),
            forall|s: int, m: int|
                #![trigger linked(hashes@, s as usize, m as usize)]
                0 <= s < m < n && s < i && hashes@[s] is Some && hashes@[m] is Some && !processed@[s] && !processed@[m]
                    ==> !linked(hashes@, s as usize, m as usize),
            forall|g: int, a: int, m: int|
                #![trigger linked(hashes@, gs[g][a], m as usize)]
                0 <= g < gs.len() && 0 <= a < gs[g].len() && 0 <= m < n && hashes@[m] is Some && !processed@[m]
                    && gs[g][a] < m ==> !linked(hashes@, gs[g][a], m as usize),
            forall|g: int| 0 <= g < gs.len() ==> (#[trigger] gs[g])[0] < i,
            forall|g1: int, g2: int| 0 <= g1 < g2 < gs.len() ==> (#[trigger] gs[g1])[0] < (#[trigger] gs[g2])[0],
            forall|g: int, m: int|
                #![trigger gs[g].contains(m as usize)]
                #![trigger joins(hashes@, gs[g], m)]
                0 <= g < gs.len() && gs[g][0] < m < n && hashes@[m] is Some && in_no_group_before(gs, g, m as usize) ==> (
                gs[g].contains(m as usize) <==> joins(hashes@, gs[g], m)),
            forall|s: int, m: int|
                #![trigger linked(hashes@, s as usize, m as usize)]
                0 <= s < m < n && s < i && hashes@[s] is Some && hashes@[m] is Some && !processed@[s]
                    && in_no_group_seeded_before(gs, s, m as usize) ==> !linked(hashes@, s as usize, m as usize),
        decreases n - i,
    {
        if processed[i] {
            i += 1;
            continue;
        }
        if hashes[i].is_none() {
            i += 1;
            continue;
        }
        let ghost old_p = processed@;
        let mut group: Vec<usize> = Vec::new();
        group.push(i);
        let mut j: usize = i + 1;
        while j < n
            invariant
                n == hashes@.len(),
                processed@.len() == n,
                old_p.len() == n,
                i < j <= n,
                !old_p[i as int],
                !processed@[i as int],
                hashes@[i as int] is Some,
                group@.len() >= 1,
                group@[0] == i,
                forall|a: int| 0 <= a < group@.len() ==> #[trigger] group@[a] < j && i <= group@[a] && hashes@[group@[a] as int] is Some
                    && !old_p[group@[a] as int],
                forall|a: int, b: int| 0 <= a < b < group@.len() ==> group@[a] < group@[b],
                forall|a: int| 0 < a < group@.len() ==> processed@[#[trigger] group@[a] as int],
                forall|m: int| 0 <= m < n && old_p[m] ==> processed@[m],
                forall|m: int| 0 <= m < n && #[trigger] processed@[m] ==> old_p[m] || group@.contains(m as usize),
                forall|m: int, a: int|
                    #![trigger linked(hashes@, group@[a], m as usize)]
                    i < m < j && hashes@[m] is Some && !processed@[m] && 0 <= a < group@.len() && group@[a] < m
                        ==> !linked(hashes@, group@[a], m as usize),
                is_chain(hashes@, group@),
            decreases n - j,
        {
            let ghost pre_p = processed@;
            let ghost before = group@;
            if !processed[j] {
                match &hashes[j] {
                    Some(hj) => {
                        if near_any(hashes, &group, hj) {
                            group.push(j);
                            processed.set(j, true);
                            assert forall|k: int| 0 < k < group@.len() implies #[trigger] linked_before(hashes@, group@, k) by {
                                if k < before.len() {
                                    assert(linked_before(hashes@, before, k));
                                    let w = choose|w: int| 0 <= w < k && linked(hashes@, before[w], before[k]);
                                    assert(linked(hashes@, group@[w], group@[k]));
                                } else {
                                    let w = choose|w: int| 0 <= w < before.len() && distance(key(hashes@, before[w] as int), hj@) <= PHASH_THRESHOLD;
                                    assert(linked(hashes@, group@[w], group@[k]));
                                }
                            }
                            assert forall|m: int| 0 <= m < n && #[trigger] processed@[m] implies old_p[m] || group@.contains(m as usize) by {
                                if m == j {
                                    assert(group@[before.len() as int] == j);
                                } else {
                                    assert(pre_p[m]);
                                    if before.contains(m as usize) {
                                        let a = choose|a: int| 0 <= a < before.len() && before[a] == m as usize;
                                        assert(group@[a] == m as usize);
                                    }
                                }
                            }
                            assert forall|m: int, a: int|
                                i < m < j + 1 && hashes@[m] is Some && !processed@[m] && 0 <= a < group@.len() && group@[a] < m
                                    implies !linked(hashes@, group@[a], m as usize) by {
                                assert(m != j);
                                assert(a < before.len());
                                assert(group@[a] == before[a]);
                                assert(!pre_p[m]);
                            }
                        } else {
                            assert forall|m: int, a: int|
                                i < m < j + 1 && hashes@[m] is Some && !processed@[m] && 0 <= a < group@.len() && group@[a] < m
                                    implies !linked(hashes@, group@[a], m as usize) by {
                                if m == j {
                                    assert(hashes@[m] == Some(*hj));
                                }
                            }
                        }
                    },
                    None => {},
                }
            }
            j += 1;
        }
        if group.len() > 1 {
            let ghost p_end = processed@;
            processed.set(i, true);
            let ghost old_gs = gs;
            proof {
                gs = gs.push(group@);
                let k = old_gs.len() as int;
                assert(gs[k] == group@);
                assert forall|h: int| 0 <= h < k implies gs[h] == old_gs[h] by {}
                assert forall|g: int, m: int|
                    0 <= g < gs.len() && gs[g][0] < m < n && hashes@[m] is Some && in_no_group_before(gs, g, m as usize)
                        implies (gs[g].contains(m as usize) <==> joins(hashes@, gs[g], m)) by {
                    if g < k {
                        assert(gs[g] == old_gs[g]);
                        assert forall|h: int| 0 <= h < g implies !(#[trigger] old_gs[h]).contains(m as usize) by {
                            assert(gs[h] == old_gs[h]);
                        }
                        assert(in_no_group_before(old_gs, g, m as usize));
                    } else {
                        if old_p[m] {
                            let h = choose|h: int| 0 <= h < old_gs.len() && #[trigger] old_gs[h].contains(m as usize);
                            assert(gs[h] == old_gs[h]);
                            assert(!gs[h].contains(m as usize));
                        }
                        if group@.contains(m as usize) {
                            let b = choose|b: int| 0 <= b < group@.len() && group@[b] == m as usize;
                            assert(b > 0);
                            assert(linked_before(hashes@, group@, b));
                            let j = choose|j: int| 0 <= j < b && linked(hashes@, group@[j], group@[b]);
                            assert(group@[j] < group@[b]);
                            assert(linked(hashes@, group@[j], m as usize));
                        }
                        if joins(hashes@, group@, m) && !group@.contains(m as usize) {
                            assert(!p_end[m]);
                            let a = choose|a: int| 0 <= a < group@.len() && group@[a] < m && #[trigger] linked(hashes@, group@[a], m as usize);
                            assert(!linked(hashes@, group@[a], m as usize));
                        }
                    }
                }
                assert forall|s2: int, m: int|
                    0 <= s2 < m < n && s2 < i + 1 && hashes@[s2] is Some && hashes@[m] is Some && !processed@[s2]
                        && in_no_group_seeded_before(gs, s2, m as usize) implies !linked(hashes@, s2 as usize, m as usize) by {
                    assert(s2 != i);
                    assert forall|h: int| 0 <= h < old_gs.len() && (#[trigger] old_gs[h])[0] < s2 implies !old_gs[h].contains(m as usize) by {
                        assert(gs[h] == old_gs[h]);
                    }
                    assert(in_no_group_seeded_before(old_gs, s2, m as usize));
                }
                assert forall|g1: int, g2: int| 0 <= g1 < g2 < gs.len() implies (#[trigger] gs[g1])[0] < (#[trigger] gs[g2])[0] by {
                    if g2 < k {
                        assert(gs[g1] == old_gs[g1] && gs[g2] == old_gs[g2]);
                    } else {
                        assert(gs[g1] == old_gs[g1]);
                    }
                }
                assert forall|g1: int, g2: int, a: int, b: int|
                    0 <= g1 < gs.len() && 0 <= g2 < gs.len() && g1 != g2 && 0 <= a < gs[g1].len()
                        && 0 <= b < gs[g2].len() implies #[trigger] gs[g1][a] != #[trigger] gs[g2][b] by {
                    if g1 < old_gs.len() && g2 < old_gs.len() {
                        assert(old_gs[g1][a] != old_gs[g2][b]);
                    } else if g1 < old_gs.len() {
                        assert(old_p[old_gs[g1][a] as int]);
                        assert(!old_p[group@[b] as int]);
                    } else {
                        assert(old_p[old_gs[g2][b] as int]);
                        assert(!old_p[group@[a] as int]);
                    }
                }
                assert forall|g: int, a: int| 0 <= g < gs.len() && 0 <= a < gs[g].len() implies processed@[#[trigger] gs[g][a] as int] by {
                    if g < old_gs.len() {
                        assert(old_p[old_gs[g][a] as int]);
                    } else if a > 0 {
                        assert(processed@[group@[a] as int]);
                    }
                }
                assert(valid_group(hashes@, gs[gs.len() - 1]));
                let last = gs.len() - 1;
                assert forall|m: int| 0 <= m < n && #[trigger] processed@[m] implies in_some_group(gs, m as usize) by {
                    if m == i {
                        assert(gs[last][0] == m as usize);
                        assert(gs[last].contains(m as usize));
                    } else if old_p[m] {
                        let g = choose|g: int| 0 <= g < old_gs.len() && #[trigger] old_gs[g].contains(m as usize);
                        assert(gs[g] == old_gs[g]);
                    } else {
                        assert(group@.contains(m as usize));
                        assert(gs[last] == group@);
                    }
                }
                assert forall|g: int, a: int, m: int|
                    0 <= g < gs.len() && 0 <= a < gs[g].len() && 0 <= m < n && hashes@[m] is Some && !processed@[m]
                        && gs[g][a] < m implies !linked(hashes@, gs[g][a], m as usize) by {
                    if g < old_gs.len() {
                        assert(gs[g] == old_gs[g]);
                        assert(!old_p[m]);
                    } else {
                        assert(gs[g] == group@);
                        assert(m > i);
                    }
                }
            }
            groups.push(group);
        } else {
            proof {
                assert forall|m: int| 0 <= m < n implies processed@[m] == old_p[m] by {
                    if processed@[m] && !old_p[m] {
                        let a = choose|a: int| 0 <= a < group@.len() && group@[a] == m as usize;
                    }
                }
                assert(processed@ =~= old_p);
                assert forall|s: int, m: int|
                    0 <= s < m < n && s < i + 1 && hashes@[s] is Some && hashes@[m] is Some && !processed@[s] && !processed@[m]
                        implies !linked(hashes@, s as usize, m as usize) by {
                    if s == i {
                        assert(group@[0] == s as usize);
                        assert(!linked(hashes@, group@[0], m as usize));
                    }
                }
                assert forall|s2: int, m: int|
                    0 <= s2 < m < n && s2 < i + 1 && hashes@[s2] is Some && hashes@[m] is Some && !processed@[s2]
                        && in_no_group_seeded_before(gs, s2, m as usize) implies !linked(hashes@, s2 as usize, m as usize) by {
                    if s2 == i {
                        if old_p[m] {
                            let h = choose|h: int| 0 <= h < gs.len() && #[trigger] gs[h].contains(m as usize);
                            assert(gs[h][0] < i);
                        }
                        assert(group@[0] == s2 as usize);
                        assert(!linked(hashes@, group@[0], m as usize));
                    }
                }
            }
        }
        i += 1;
    }
    assert(groups@.map_values(|v: Vec<usize>| v@) =~= gs);
    groups
}

/// A walk through a group: a sequence of member indices in which each
/// member's hash is within the threshold of the next one's.
pub open spec fn is_walk(hs: Seq<Option<String>>, g: Seq<usize>, p: Seq<int>) -> bool {
    &&& p.len() >= 1
    &&& forall|t: int| 0 <= t < p.len() ==> 0 <= #[trigger] p[t] < g.len()
    &&& forall|t: int| 0 < t < p.len() ==> linked(hs, g[p[t - 1]], g[#[trigger] p[t]])
}

proof fn lemma_walk_from_first(hs: Seq<Option<String>>, g: Seq<usize>, k: int) -> (p: Seq<int>)
    requires
        is_chain(hs, g),
        0 <= k < g.len(),
    ensures
        is_walk(hs, g, p),
        p[0] == 0,
        p[p.len() - 1] == k,
    decreases k,
{
    if k == 0 {
        seq![0int]
    } else {
        assert(linked_before(hs, g, k));
        let j = choose|j: int| 0 <= j < k && linked(hs, g[j], g[k]);
        let q = lemma_walk_from_first(hs, g, j);
        let p = q.push(k);
        assert forall|t: int| 0 < t < p.len() implies linked(hs, g[p[t - 1]], g[#[trigger] p[t]]) by {
            if t < q.len() {
                assert(p[t] == q[t] && p[t - 1] == q[t - 1]);
            }
        }
        assert forall|t: int| 0 <= t < p.len() implies 0 <= #[trigger] p[t] < g.len() by {
            if t < q.len() {
                assert(p[t] == q[t]);
            }
        }
        p
    }
}

proof fn lemma_walk_reversed(hs: Seq<Option<String>>, g: Seq<usize>, p: Seq<int>) -> (r: Seq<int>)
    requires
        is_walk(hs, g, p),
    ensures
        is_walk(hs, g, r),
        r.len() == p.len(),
        r[0] == p[p.len() - 1],
        r[r.len() - 1] == p[0],
{
    let r = Seq::new(p.len(), |t: int| p[p.len() - 1 - t]);
    assert forall|t: int| 0 < t < r.len() implies linked(hs, g[r[t - 1]], g[#[trigger] r[t]]) by {
        let u = p.len() - t;
        assert(r[t] == p[u - 1]);
        assert(r[t - 1] == p[u]);
        assert(linked(hs, g[p[u - 1]], g[p[u]]));
        lemma_distance_symmetric(key(hs, g[p[u - 1]] as int), key(hs, g[p[u]] as int));
    }
    assert forall|t: int| 0 <= t < r.len() implies 0 <= #[trigger] r[t] < g.len() by {
        assert(r[t] == p[p.len() - 1 - t]);
    }
    r
}

/// In a near-duplicate group, every member is joined to every other member
/// by a walk of hashes, each within the threshold of the next.
pub proof fn lemma_group_members_connected(hs: Seq<Option<String>>, g: Seq<usize>, a: int, b: int)
    requires
        is_chain(hs, g),
        0 <= a < g.len(),
        0 <= b < g.len(),
    ensures
        exists|p: Seq<int>| is_walk(hs, g, p) && p[0] == a && p[p.len() - 1] == b,
{
    let pa = lemma_walk_from_first(hs, g, a);
    let ra = lemma_walk_reversed(hs, g, pa);
    let pb = lemma_walk_from_first(hs, g, b);
    let tail = pb.subrange(1, pb.len() as int);
    let p = ra + tail;
    assert forall|t: int| 0 <= t < p.len() implies 0 <= #[trigger] p[t] < g.len() by {
        if t < ra.len() {
            assert(p[t] == ra[t]);
        } else {
            assert(p[t] == pb[t - ra.len() + 1]);
        }
    }
    assert forall|t: int| 0 < t < p.len() implies linked(hs, g[p[t - 1]], g[#[trigger] p[t]]) by {
        if t < ra.len() {
            assert(p[t] == ra[t] && p[t - 1] == ra[t - 1]);
        } else {
            let u = t - ra.len() + 1;
            assert(p[t] == pb[u]);
            if t == ra.len() {
                assert(p[t - 1] == ra[ra.len() - 1]);
                assert(pb[u - 1] == 0);
            } else {
                assert(p[t - 1] == pb[u - 1]);
            }
            assert(linked(hs, g[pb[u - 1]], g[pb[u]]));
        }
    }
    if pb.len() == 1 {
        assert(p[p.len() - 1] == ra[ra.len() - 1]);
    } else {
        assert(p[p.len() - 1] == pb[pb.len() - 1]);
    }
    assert(is_walk(hs, g, p) && p[0] == a && p[p.len() - 1] == b);
}

/// The hash text of a group's first member.
pub open spec fn group_key(hs: Seq<Option<String>>, g: Seq<usize>) -> Seq<char> {
    key(hs, g[0] as int)
}

pub open spec fn in_some_group(gs: Seq<Seq<usize>>, m: usize) -> bool {
    exists|g: int| 0 <= g < gs.len() && #[trigger] gs[g].contains(m)
}

/// The positions that share one content hash, grouped: each group holds
/// every position with its hash and two or more positions, groups have
/// distinct hashes, and every hash held at two positions has its group.
pub open spec fn exact_groups_ok(hs: Seq<Option<String>>, gs: Seq<Seq<usize>>) -> bool {
    &&& forall|g: int| 0 <= g < gs.len() ==> valid_group(hs, #[trigger] gs[g])
    &&& forall|g: int, a: int|
        0 <= g < gs.len() && 0 <= a < gs[g].len() ==> key(hs, #[trigger] gs[g][a] as int) == group_key(hs, gs[g])
    &&& forall|g: int, m: int|
        0 <= g < gs.len() && 0 <= m < hs.len() && hs[m] is Some && key(hs, m) == group_key(hs, gs[g])
            ==> #[trigger] gs[g].contains(m as usize)
    &&& forall|g1: int, g2: int|
        0 <= g1 < gs.len() && 0 <= g2 < gs.len() && g1 != g2 ==> #[trigger] group_key(hs, gs[g1])
            != #[trigger] group_key(hs, gs[g2])
    &&& forall|m1: int, m2: int|
        #![trigger key(hs, m1), key(hs, m2)]
        0 <= m1 < hs.len() && 0 <= m2 < hs.len() && m1 != m2 && hs[m1] is Some && hs[m2] is Some && key(hs, m1)
            == key(hs, m2) ==> in_some_group(gs, m1 as usize)
}

/// Exact-duplicate clustering: groups the positions that hold a hash by
/// equal hash text, keeping the groups of two or more.
pub fn exact_groups(hashes: &Vec<Option<String>>) -> (r: Vec<Vec<usize>>)
    ensures
        exact_groups_ok(hashes@, r@.map_values(|v: Vec<usize>| v@)),
{
    let n = hashes.len();
    let mut processed: Vec<bool> = Vec::new();
    while processed.len() < n
        invariant
            processed@.len() <= n,
            forall|m: int| 0 <= m < processed@.len() ==> !processed@[m],
        decreases n - processed@.len(),
    {
        processed.push(false);
    }
    let mut groups: Vec<Vec<usize>> = Vec::new();
    let ghost mut gs: Seq<Seq<usize>> = Seq::empty();
    let ghost mut seen: Set<Seq<char>> = Set::empty();
    let mut i: usize = 0;
    while i < n
        invariant
            n == hashes@.len(),
            processed@.len() == n,
            i <= n,
            gs.len() == groups@.len(),
            forall|g: int| 0 <= g < gs.len() ==> #[trigger] groups@[g]@ == gs[g],
            forall|m: int| 0 <= m < n ==> processed@[m] == (hashes@[m] is Some && seen.contains(key(hashes@, m))),
            forall|m: int| 0 <= m < i && hashes@[m] is Some ==> seen.contains(key(hashes@, m)),
            forall|g: int| 0 <= g < gs.len() ==> valid_group(hashes@, #[trigger] gs[g]),
            forall|g: int, a: int|
                0 <= g < gs.len() && 0 <= a < gs[g].len() ==> key(hashes@, #[trigger] gs[g][a] as int) == group_key(hashes@, gs[g]),
            forall|g: int| 0 <= g < gs.len() ==> seen.contains(group_key(hashes@, #[trigger] gs[g])),
            forall|g: int, m: int|
                0 <= g < gs.len() && 0 <= m < n && hashes@[m] is Some && key(hashes@, m) == group_key(hashes@, gs[g])
                    ==> #[trigger] gs[g].contains(m as usize),
            forall|g1: int, g2: int|
                0 <= g1 < gs.len() && 0 <= g2 < gs.len() && g1 != g2 ==> #[trigger] group_key(hashes@, gs[g1])
                    != #[trigger] group_key(hashes@, gs[g2]),
            forall|m1: int, m2: int|
                #![trigger key(hashes@, m1), key(hashes@, m2)]
                0 <= m1 < n && 0 <= m2 < n && m1 != m2 && hashes@[m1] is Some && hashes@[m2] is Some && key(hashes@, m1)
                    == key(hashes@, m2) && seen.contains(key(hashes@, m1)) ==> in_some_group(gs, m1 as usize),
        decreases n - i,
    {
        if processed[i] {
            i += 1;
            continue;
        }
        let h = match &hashes[i] {
            Some(h) => h,
            None => {
                i += 1;
                continue;
            },
        };
        let ghost old_p = processed@;
        let ghost hk = h@;
        assert(!seen.contains(hk));
        let mut group: Vec<usize> = Vec::new();
        let mut k: usize = i;
        while k < n
            invariant
                n == hashes@.len(),
                processed@.len() == n,
                i <= k <= n,
                hashes@[i as int] is Some,
                key(hashes@, i as int) == hk,
                h@ == hk,
                forall|a: int| 0 <= a < group@.len() ==> #[trigger] group@[a] < k && i <= group@[a] && hashes@[group@[a] as int] is Some
                    && key(hashes@, group@[a] as int) == hk,
                forall|a: int, b: int| 0 <= a < b < group@.len() ==> group@[a] < group@[b],
                forall|m: int| i <= m < k && hashes@[m] is Some && key(hashes@, m) == hk ==> group@.contains(m as usize),
                forall|m: int| 0 <= m < n ==> processed@[m] == (old_p[m] || (m < k && hashes@[m] is Some && key(hashes@, m) == hk)),
                old_p.len() == n,
                k == i ==> group@.len() == 0,
                k > i ==> group@.len() >= 1 && group@[0] == i,
            decreases n - k,
        {
            let ghost pre = processed@;
            match &hashes[k] {
                Some(t) => {
                    if *t == *h {
                        let ghost before = group@;
                        group.push(k);
                        processed.set(k, true);
                        assert forall|m: int| i <= m < k && hashes@[m] is Some && key(hashes@, m) == hk implies group@.contains(
                            m as usize,
                        ) by {
                            let a = choose|a: int| 0 <= a < before.len() && before[a] == m as usize;
                            assert(group@[a] == m as usize);
                        }
                        assert(group@[group@.len() - 1] == k);
                    } else {
                        assert(key(hashes@, k as int) != hk);
                    }
                },
                None => {},
            }
            k += 1;
            assert forall|m: int| 0 <= m < n implies #[trigger] processed@[m] == (old_p[m] || (m < k && hashes@[m] is Some
                && key(hashes@, m) == hk)) by {
                if m != k - 1 {
                    assert(processed@[m] == pre[m]);
                }
            }
        }
        proof {
            let old_gs = gs;
            let old_seen = seen;
            seen = seen.insert(hk);
            assert forall|m: int| 0 <= m < n implies processed@[m] == (hashes@[m] is Some && seen.contains(
                key(hashes@, m),
            )) by {
                assert(old_p[m] == (hashes@[m] is Some && old_seen.contains(key(hashes@, m))));
            }
            assert forall|m: int| 0 <= m < n && hashes@[m] is Some && key(hashes@, m) == hk implies group@.contains(m as usize) by {
                if m < i {
                    assert(old_seen.contains(key(hashes@, m)));
                }
            }
            if group@.len() >= 2 {
                gs = gs.push(group@);
                assert(valid_group(hashes@, gs[gs.len() - 1]));
                assert forall|g: int, m: int|
                    0 <= g < gs.len() && 0 <= m < n && hashes@[m] is Some && key(hashes@, m) == group_key(hashes@, gs[g])
                        implies #[trigger] gs[g].contains(m as usize) by {
                    if g < old_gs.len() {
                        assert(gs[g] == old_gs[g]);
                    }
                }
                assert forall|g1: int, g2: int|
                    0 <= g1 < gs.len() && 0 <= g2 < gs.len() && g1 != g2 implies #[trigger] group_key(hashes@, gs[g1])
                        != #[trigger] group_key(hashes@, gs[g2]) by {
                    if g1 < old_gs.len() && g2 < old_gs.len() {
                        assert(group_key(hashes@, old_gs[g1]) != group_key(hashes@, old_gs[g2]));
                    } else if g1 < old_gs.len() {
                        assert(old_seen.contains(group_key(hashes@, old_gs[g1])));
                    } else {
                        assert(old_seen.contains(group_key(hashes@, old_gs[g2])));
                    }
                }
            }
            assert forall|m1: int, m2: int|
                #![trigger key(hashes@, m1), key(hashes@, m2)]
                0 <= m1 < n && 0 <= m2 < n && m1 != m2 && hashes@[m1] is Some && hashes@[m2] is Some && key(hashes@, m1)
                    == key(hashes@, m2) && seen.contains(key(hashes@, m1)) implies in_some_group(gs, m1 as usize) by {
                if key(hashes@, m1) == hk {
                    assert(group@.contains(m1 as usize));
                    assert(group@.contains(m2 as usize));
                    let a = choose|a: int| 0 <= a < group@.len() && group@[a] == m1 as usize;
                    let b = choose|b: int| 0 <= b < group@.len() && group@[b] == m2 as usize;
                    assert(a != b);
                    assert(gs[gs.len() - 1].contains(m1 as usize));
                } else {
                    assert(old_seen.contains(key(hashes@, m1)));
                    let g = choose|g: int| 0 <= g < old_gs.len() && #[trigger] old_gs[g].contains(m1 as usize);
                    assert(gs[g] == old_gs[g]);
                }
            }
        }
        if group.len() >= 2 {
            groups.push(group);
        }
        i += 1;
    }
    assert(groups@.map_values(|v: Vec<usize>| v@) =~= gs);
    groups
}

/// The perceptual hashes of a sequence of records, position by position.
pub open spec fn phashes_of(images: Seq<ImageInfo>) -> Seq<Option<String>> {
    images.map_values(|i: ImageInfo| i.phash)
}

/// The content hashes of a sequence of records, position by position.
pub open spec fn content_hashes_of(images: Seq<ImageInfo>) -> Seq<Option<String>> {
    images.map_values(|i: ImageInfo| i.sha1)
}

/// Groups of records that are the input records at the grouped positions.
pub open spec fn records_at(r: Seq<Vec<ImageInfo>>, images: Seq<ImageInfo>, gs: Seq<Seq<usize>>) -> bool {
    &&& r.len() == gs.len()
    &&& forall|g: int| 0 <= g < gs.len() ==> (#[trigger] r[g])@.len() == gs[g].len()
    &&& forall|g: int, a: int| 0 <= g < gs.len() && 0 <= a < gs[g].len() ==> r[g]@[a] == images[#[trigger] gs[g][a] as int]
}

fn phash_column(images: &Vec<ImageInfo>) -> (r: Vec<Option<String>>)
    ensures
        r@ == phashes_of(images@),
{
    let mut r: Vec<Option<String>> = Vec::new();
    let mut i: usize = 0;
    while i < images.len()
        invariant
            i <= images@.len(),
            r@ =~= phashes_of(images@).take(i as int),
        decreases images@.len() - i,
    {
        r.push(copy_text(&images[i].phash));
        i += 1;
    }
    assert(r@ =~= phashes_of(images@));
    r
}

fn content_hash_column(images: &Vec<ImageInfo>) -> (r: Vec<Option<String>>)
    ensures
        r@ == content_hashes_of(images@),
{
    let mut r: Vec<Option<String>> = Vec::new();
    let mut i: usize = 0;
    while i < images.len()
        invariant
            i <= images@.len(),
            r@ =~= content_hashes_of(images@).take(i as int),
        decreases images@.len() - i,
    {
        r.push(copy_text(&images[i].sha1));
        i += 1;
    }
    assert(r@ =~= content_hashes_of(images@));
    r
}

fn pick_groups(images: &Vec<ImageInfo>, idx: &Vec<Vec<usize>>) -> (r: Vec<Vec<ImageInfo>>)
    requires
        forall|g: int, a: int| 0 <= g < idx@.len() && 0 <= a < idx@[g]@.len() ==> #[trigger] idx@[g]@[a] < images@.len(),
    ensures
        records_at(r@, images@, idx@.map_values(|v: Vec<usize>| v@)),
{
    let ghost gs = idx@.map_values(|v: Vec<usize>| v@);
    let mut r: Vec<Vec<ImageInfo>> = Vec::new();
    let mut g: usize = 0;
    while g < idx.len()
        invariant
            g <= idx@.len(),
            gs == idx@.map_values(|v: Vec<usize>| v@),
            forall|g: int, a: int| 0 <= g < idx@.len() && 0 <= a < idx@[g]@.len() ==> #[trigger] idx@[g]@[a] < images@.len(),
            r@.len() == g,
            forall|h: int| 0 <= h < g ==> (#[trigger] r@[h])@.len() == gs[h].len(),
            forall|h: int, a: int| 0 <= h < g && 0 <= a < gs[h].len() ==> r@[h]@[a] == images@[#[trigger] gs[h][a] as int],
        decreases idx@.len() - g,
    {
        let members = &idx[g];
        let mut out: Vec<ImageInfo> = Vec::new();
        let mut a: usize = 0;
        while a < members.len()
            invariant
                a <= members@.len(),
                members@ == gs[g as int],
                g < idx@.len(),
                gs == idx@.map_values(|v: Vec<usize>| v@),
                forall|g: int, a: int| 0 <= g < idx@.len() && 0 <= a < idx@[g]@.len() ==> #[trigger] idx@[g]@[a] < images@.len(),
                out@.len() == a,
                forall|b: int| 0 <= b < a ==> out@[b] == images@[#[trigger] members@[b] as int],
            decreases members@.len() - a,
        {
            assert(idx@[g as int]@[a as int] < images@.len());
            out.push(images[members[a]].duplicate());
            a += 1;
        }
        r.push(out);
        g += 1;
    }
    r
}

/// Near-duplicate groups of records: the records at the positions that
/// `similar_groups` forms from their perceptual hashes.
pub fn find_similar_duplicates(images: Vec<ImageInfo>) -> (r: Vec<Vec<ImageInfo>>)
    ensures
        exists|gs: Seq<Seq<usize>>|
            similar_groups_ok(phashes_of(images@), gs) && none_left_out(phashes_of(images@), gs) && greedy_pass(
                phashes_of(images@),
                gs,
            ) && records_at(r@, images@, gs),
{
    let hashes = phash_column(&images);
    let idx = similar_groups(&hashes);
    let ghost gs = idx@.map_values(|v: Vec<usize>| v@);
    assert forall|g: int, a: int| 0 <= g < idx@.len() && 0 <= a < idx@[g]@.len() implies #[trigger] idx@[g]@[a] < images@.len() by {
        assert(valid_group(hashes@, gs[g]));
        assert(gs[g][a] == idx@[g]@[a]);
    }
    let r = pick_groups(&images, &idx);
    assert(similar_groups_ok(phashes_of(images@), gs) && none_left_out(phashes_of(images@), gs) && greedy_pass(
        phashes_of(images@),
        gs,
    ) && records_at(
        r@,
        images@,
        gs,
    ));
    r
}

/// Exact-duplicate groups of records: the records at the positions that
/// `exact_groups` forms from their content hashes.
pub fn find_exact_duplicates(images: Vec<ImageInfo>) -> (r: Vec<Vec<ImageInfo>>)
    ensures
        exists|gs: Seq<Seq<usize>>| exact_groups_ok(content_hashes_of(images@), gs) && records_at(r@, images@, gs),
{
    let hashes = content_hash_column(&images);
    let idx = exact_groups(&hashes);
    let ghost gs = idx@.map_values(|v: Vec<usize>| v@);
    assert forall|g: int, a: int| 0 <= g < idx@.len() && 0 <= a < idx@[g]@.len() implies #[trigger] idx@[g]@[a] < images@.len() by {
        assert(valid_group(hashes@, gs[g]));
        assert(gs[g][a] == idx@[g]@[a]);
    }
    let r = pick_groups(&images, &idx);
    assert(exact_groups_ok(content_hashes_of(images@), gs) && records_at(r@, images@, gs));
    r
}

/// No position lies in two exact-duplicate groups, and every member of a
/// group has the group's hash.
pub proof fn lemma_exact_groups_disjoint(hs: Seq<Option<String>>, gs: Seq<Seq<usize>>)
    requires
        exact_groups_ok(hs, gs),
    ensures
        disjoint(gs),
        forall|g: int, a: int| 0 <= g < gs.len() && 0 <= a < gs[g].len() ==> hs[#[trigger] gs[g][a] as int] is Some
            && key(hs, gs[g][a] as int) == group_key(hs, gs[g]),
{
    assert forall|g1: int, g2: int, a: int, b: int|
        0 <= g1 < gs.len() && 0 <= g2 < gs.len() && g1 != g2 && 0 <= a < gs[g1].len() && 0 <= b < gs[g2].len()
            implies #[trigger] gs[g1][a] != #[trigger] gs[g2][b] by {
        assert(valid_group(hs, gs[g1]));
        assert(valid_group(hs, gs[g2]));
        assert(key(hs, gs[g1][a] as int) == group_key(hs, gs[g1]));
        assert(key(hs, gs[g2][b] as int) == group_key(hs, gs[g2]));
    }
    assert forall|g: int, a: int| 0 <= g < gs.len() && 0 <= a < gs[g].len() implies hs[#[trigger] gs[g][a] as int] is Some
        && key(hs, gs[g][a] as int) == group_key(hs, gs[g]) by {
        assert(valid_group(hs, gs[g]));
    }
}

} // verus!
