//! A reference instantiation of the clustering interface on a
//! one-dimensional integer line.
//!
//! The types here are deliberately small: they exist to show that the layer's
//! contracts can be discharged by a concrete metric and a concrete algorithm,
//! and to give callers something executable to exercise the interface with.

use vstd::prelude::*;

use crate::Algorithm;
use crate::Clustered;
use crate::Proximity;
use crate::is_partition_of;

verus! {

/// A point on an integer line, measured against another by absolute
/// difference of positions.
#[derive(Clone, Copy, PartialEq, Eq, Structural, Debug)]
pub struct LinePoint {
    pub pos: u32,
}

impl Proximity for LinePoint {
    type Output = u64;

    open spec fn distance_spec(&self, other: &LinePoint) -> u64 {
        if self.pos <= other.pos {
            (other.pos - self.pos) as u64
        } else {
            (self.pos - other.pos) as u64
        }
    }

    fn distance(&self, other: &LinePoint) -> (d: u64)
        ensures
            d == self.distance_spec(other),
            d == other.distance_spec(self),
    {
        if self.pos <= other.pos {
            (other.pos as u64) - (self.pos as u64)
        } else {
            (self.pos as u64) - (other.pos as u64)
        }
    }
}

/// A point whose distance is direction-dependent: measured toward a larger
/// position it is the plain difference, measured toward a smaller position a
/// constant detour of 2 is added. The interface imposes no symmetry, so this
/// implementation is as valid as the plain one.
#[derive(Clone, Copy, PartialEq, Eq, Structural, Debug)]
pub struct SkewPoint {
    pub pos: u32,
}

impl Proximity for SkewPoint {
    type Output = u64;

    open spec fn distance_spec(&self, other: &SkewPoint) -> u64 {
        if self.pos <= other.pos {
            (other.pos - self.pos) as u64
        } else {
            ((self.pos - other.pos) + 2) as u64
        }
    }

    fn distance(&self, other: &SkewPoint) -> (d: u64)
        ensures
            d == self.distance_spec(other),
            self.pos > other.pos ==> d == other.distance_spec(self) + 2,
    {
        if self.pos <= other.pos {
            (other.pos as u64) - (self.pos as u64)
        } else {
            ((self.pos as u64) - (other.pos as u64)) + 2
        }
    }
}

/// Cross-type proximity: a plain line point measured against a skewed point,
/// by absolute difference of positions. The `Other` parameter of
/// [`Proximity`] allows the two sides of a measurement to differ in type.
impl Proximity<SkewPoint> for LinePoint {
    type Output = u64;

    open spec fn distance_spec(&self, other: &SkewPoint) -> u64 {
        if self.pos <= other.pos {
            (other.pos - self.pos) as u64
        } else {
            (self.pos - other.pos) as u64
        }
    }

    fn distance(&self, other: &SkewPoint) -> (d: u64)
        ensures
            d == self.distance_spec(other),
    {
        if self.pos <= other.pos {
            (other.pos as u64) - (self.pos as u64)
        } else {
            (self.pos as u64) - (other.pos as u64)
        }
    }
}

/// The view of a list of stored groups: each group as the sequence of its
/// points.
pub open spec fn views_of(groups: Seq<Vec<LinePoint>>) -> Seq<Seq<LinePoint>> {
    groups.map_values(|g: Vec<LinePoint>| g@)
}

/// One step of the chain grouping: point `p` joins the open group when that
/// group is non-empty and its last member lies within `eps` of `p`;
/// otherwise the open group (if any) is sealed and `p` opens a new one.
pub open spec fn chain_extend(
    groups: Seq<Seq<LinePoint>>,
    current: Seq<LinePoint>,
    p: LinePoint,
    eps: u64,
) -> (Seq<Seq<LinePoint>>, Seq<LinePoint>) {
    if current.len() == 0 {
        (groups, seq![p])
    } else if current.last().distance_spec(&p) <= eps {
        (groups, current.push(p))
    } else {
        (groups.push(current), seq![p])
    }
}

/// The state after chaining through `points` in order: the sealed groups and
/// the group still open.
pub open spec fn chain_state(points: Seq<LinePoint>, eps: u64) -> (
    Seq<Seq<LinePoint>>,
    Seq<LinePoint>,
)
    decreases points.len(),
{
    if points.len() == 0 {
        (Seq::empty(), Seq::empty())
    } else {
        let s = chain_state(points.drop_last(), eps);
        chain_extend(s.0, s.1, points.last(), eps)
    }
}

/// Seals the group left open at the end of the input, if there is one.
pub open spec fn finish_groups(state: (Seq<Seq<LinePoint>>, Seq<LinePoint>)) -> Seq<
    Seq<LinePoint>,
> {
    if state.1.len() == 0 {
        state.0
    } else {
        state.0.push(state.1)
    }
}

/// Separates sealed groups into clusters and noise: a group of at least two
/// points is a cluster, a smaller group contributes its points to the noise.
pub open spec fn split_groups(groups: Seq<Seq<LinePoint>>) -> (
    Seq<Seq<LinePoint>>,
    Seq<LinePoint>,
)
    decreases groups.len(),
{
    if groups.len() == 0 {
        (Seq::empty(), Seq::empty())
    } else {
        let s = split_groups(groups.drop_last());
        let g = groups.last();
        if g.len() >= 2 {
            (s.0.push(g), s.1)
        } else {
            (s.0, s.1 + g)
        }
    }
}

/// The clusters that the chain algorithm finds in `points` with threshold
/// `eps`.
pub open spec fn chain_clusters(points: Seq<LinePoint>, eps: u64) -> Seq<Seq<LinePoint>> {
    split_groups(finish_groups(chain_state(points, eps))).0
}

/// The noise that the chain algorithm leaves in `points` with threshold
/// `eps`.
pub open spec fn chain_noise(points: Seq<LinePoint>, eps: u64) -> Seq<LinePoint> {
    split_groups(finish_groups(chain_state(points, eps))).1
}

/// Copies a list of points element by element.
fn copy_points(points: &Vec<LinePoint>) -> (copied: Vec<LinePoint>)
    ensures
        copied@ == points@,
{
    let mut copied: Vec<LinePoint> = Vec::new();
    let mut i: usize = 0;
    while i < points.len()
        invariant
            i <= points.len(),
            copied@ == points@.take(i as int),
        decreases points.len() - i,
    {
        let p = points[i];
        copied.push(p);
        proof {
            assert(points@.take(i as int).push(points@[i as int]) =~= points@.take(
                i as int + 1,
            ));
        }
        i += 1;
    }
    proof {
        assert(points@.take(points@.len() as int) =~= points@);
    }
    copied
}

/// The clustering that [`ChainClustering`] produces: sealed groups of at
/// least two points, and the points left over.
pub struct LinePartition {
    clusters: Vec<Vec<LinePoint>>,
    noise: Vec<LinePoint>,
}

impl Clustered<LinePoint> for LinePartition {
    closed spec fn clusters_spec(&self) -> Seq<Seq<LinePoint>> {
        views_of(self.clusters@)
    }

    closed spec fn noise_spec(&self) -> Seq<LinePoint> {
        self.noise@
    }

    fn clusters(&self) -> (found: Vec<Vec<LinePoint>>)
        ensures
            found@.len() == self.clusters_spec().len(),
            forall|i: int| 0 <= i < found@.len() ==> #[trigger] found@[i]@ == self.clusters_spec()[i],
    {
        let mut found: Vec<Vec<LinePoint>> = Vec::new();
        let mut i: usize = 0;
        while i < self.clusters.len()
            invariant
                i <= self.clusters.len(),
                found@.len() == i,
                forall|k: int| 0 <= k < i as int ==> #[trigger] found@[k]@ == self.clusters@[k]@,
            decreases self.clusters.len() - i,
        {
            let group = copy_points(&self.clusters[i]);
            found.push(group);
            i += 1;
        }
        found
    }

    fn noise(&self) -> (unassigned: Vec<LinePoint>)
        ensures
            unassigned@ == self.noise_spec(),
    {
        copy_points(&self.noise)
    }
}

/// A single-pass clustering over [`LinePoint`]: walking the input in order,
/// a point within `epsilon` of the previous one chains into the same group;
/// groups of at least two points become clusters, stragglers become noise.
pub struct ChainClustering {
    pub epsilon: u64,
}

impl Algorithm<LinePoint> for ChainClustering {
    type Output = LinePartition;

    fn cluster(&self, clusterables: &[LinePoint]) -> (found: LinePartition)
        ensures
            found.clusters_spec() == chain_clusters(clusterables@, self.epsilon),
            found.noise_spec() == chain_noise(clusterables@, self.epsilon),
    {
        let mut groups: Vec<Vec<LinePoint>> = Vec::new();
        let mut current: Vec<LinePoint> = Vec::new();
        let mut i: usize = 0;
        while i < clusterables.len()
            invariant
                i <= clusterables.len(),
                views_of(groups@) == chain_state(clusterables@.take(i as int), self.epsilon).0,
                current@ == chain_state(clusterables@.take(i as int), self.epsilon).1,
                forall|k: int| 0 <= k < groups@.len() ==> #[trigger] groups@[k]@.len() >= 1,
            decreases clusterables.len() - i,
        {
            let p = clusterables[i];
            proof {
                assert(clusterables@.take(i as int + 1).drop_last() =~= clusterables@.take(
                    i as int,
                ));
            }
            if current.len() == 0 {
                current.push(p);
                proof {
                    assert(current@ =~= seq![p]);
                }
            } else {
                let prev = current[current.len() - 1];
                if prev.distance(&p) <= self.epsilon {
                    current.push(p);
                } else {
                    let ghost sealed = groups@;
                    let ghost open_group = current@;
                    groups.push(current);
                    current = Vec::new();
                    current.push(p);
                    proof {
                        assert(views_of(groups@) =~= views_of(sealed).push(open_group));
                        assert(current@ =~= seq![p]);
                    }
                }
            }
            i += 1;
        }
        proof {
            assert(clusterables@.take(clusterables@.len() as int) =~= clusterables@);
        }
        if current.len() > 0 {
            let ghost sealed = groups@;
            let ghost open_group = current@;
            groups.push(current);
            proof {
                assert(views_of(groups@) =~= views_of(sealed).push(open_group));
            }
        }
        let ghost all_groups = views_of(groups@);
        proof {
            assert(all_groups == finish_groups(chain_state(clusterables@, self.epsilon)));
        }
        let mut kept: Vec<Vec<LinePoint>> = Vec::new();
        let mut stray: Vec<LinePoint> = Vec::new();
        let mut j: usize = 0;
        while j < groups.len()
            invariant
                j <= groups.len(),
                all_groups == views_of(groups@),
                forall|k: int| 0 <= k < groups@.len() ==> #[trigger] groups@[k]@.len() >= 1,
                views_of(kept@) == split_groups(all_groups.take(j as int)).0,
                stray@ == split_groups(all_groups.take(j as int)).1,
            decreases groups.len() - j,
        {
            proof {
                assert(all_groups.take(j as int + 1).drop_last() =~= all_groups.take(j as int));
                assert(all_groups[j as int] == groups@[j as int]@);
            }
            let group = &groups[j];
            if group.len() >= 2 {
                let ghost kept_before = kept@;
                let copied = copy_points(group);
                let ghost copied_view = copied@;
                kept.push(copied);
                proof {
                    assert(views_of(kept@) =~= views_of(kept_before).push(copied_view));
                }
            } else {
                let single = group[0];
                stray.push(single);
                proof {
                    assert(split_groups(all_groups.take(j as int)).1 + all_groups[j as int]
                        =~= split_groups(all_groups.take(j as int)).1.push(single));
                }
            }
            j += 1;
        }
        proof {
            assert(all_groups.take(all_groups.len() as int) =~= all_groups);
            lemma_chain_partitions(clusterables@, self.epsilon);
        }
        LinePartition { clusters: kept, noise: stray }
    }
}

proof fn lemma_chain_state_partitions(points: Seq<LinePoint>, eps: u64)
    ensures
        (chain_state(points, eps).0.flatten() + chain_state(points, eps).1).to_multiset()
            == points.to_multiset(),
    decreases points.len(),
{
    broadcast use vstd::seq_lib::group_to_multiset_ensures;

    if points.len() == 0 {
        assert(chain_state(points, eps).0.flatten() + chain_state(points, eps).1 =~= points);
    } else {
        let dl = points.drop_last();
        let p = points.last();
        lemma_chain_state_partitions(dl, eps);
        let s = chain_state(dl, eps);
        assert(points =~= dl.push(p));
        if s.1.len() == 0 {
            assert(s.0.flatten() + seq![p] =~= (s.0.flatten() + s.1).push(p));
        } else if s.1.last().distance_spec(&p) <= eps {
            assert(s.0.flatten() + s.1.push(p) =~= (s.0.flatten() + s.1).push(p));
        } else {
            s.0.lemma_flatten_push(s.1);
            assert(s.0.push(s.1).flatten() + seq![p] =~= (s.0.flatten() + s.1).push(p));
        }
    }
}

proof fn lemma_finish_groups_flatten(state: (Seq<Seq<LinePoint>>, Seq<LinePoint>))
    ensures
        finish_groups(state).flatten().to_multiset() == (state.0.flatten()
            + state.1).to_multiset(),
{
    if state.1.len() == 0 {
        assert(state.0.flatten() + state.1 =~= state.0.flatten());
    } else {
        state.0.lemma_flatten_push(state.1);
        assert(state.0.push(state.1).flatten() =~= state.0.flatten() + state.1);
    }
}

proof fn lemma_split_groups_partitions(groups: Seq<Seq<LinePoint>>)
    ensures
        (split_groups(groups).0.flatten() + split_groups(groups).1).to_multiset()
            == groups.flatten().to_multiset(),
    decreases groups.len(),
{
    broadcast use vstd::multiset::group_multiset_axioms;
    broadcast use vstd::seq_lib::lemma_multiset_commutative;

    if groups.len() == 0 {
        assert(split_groups(groups).0.flatten() + split_groups(groups).1 =~= groups.flatten());
    } else {
        let dl = groups.drop_last();
        let g = groups.last();
        lemma_split_groups_partitions(dl);
        let s = split_groups(dl);
        groups.lemma_flatten_and_flatten_alt_are_equivalent();
        dl.lemma_flatten_and_flatten_alt_are_equivalent();
        assert(groups.flatten_alt() == dl.flatten_alt() + g);
        if g.len() >= 2 {
            s.0.lemma_flatten_push(g);
            assert(s.0.push(g).flatten() =~= s.0.flatten() + g);
            assert(((s.0.flatten() + g) + s.1).to_multiset() =~= (dl.flatten() + g).to_multiset());
        } else {
            assert((s.0.flatten() + (s.1 + g)).to_multiset() =~= (dl.flatten() + g).to_multiset());
        }
    }
}

/// The chain algorithm yields a partition of its input: every submitted
/// point lands in exactly one cluster or in the noise, none twice, none
/// dropped, so the member counts add up to the input count.
pub proof fn lemma_chain_partitions(points: Seq<LinePoint>, eps: u64)
    ensures
        is_partition_of(chain_clusters(points, eps), chain_noise(points, eps), points),
        chain_clusters(points, eps).flatten().len() + chain_noise(points, eps).len()
            == points.len(),
{
    lemma_chain_state_partitions(points, eps);
    lemma_finish_groups_flatten(chain_state(points, eps));
    lemma_split_groups_partitions(finish_groups(chain_state(points, eps)));
    crate::lemma_partition_size(chain_clusters(points, eps), chain_noise(points, eps), points);
}

/// An empty input yields an empty result: no clusters at all, and no noise.
pub proof fn lemma_chain_empty_input(eps: u64)
    ensures
        chain_clusters(Seq::<LinePoint>::empty(), eps) == Seq::<Seq<LinePoint>>::empty(),
        chain_noise(Seq::<LinePoint>::empty(), eps) == Seq::<LinePoint>::empty(),
{
}

} // verus!
