//! An interface layer for proximity-based clustering.
//!
//! Three capabilities are defined, each as a trait, and nothing more: how far
//! apart two values are ([`Proximity`]), how an already-computed clustering is
//! read back ([`Clustered`]), and how an algorithm turns a batch of points
//! into such a result ([`Algorithm`]). Concrete metrics and concrete
//! algorithms are collaborators that implement these traits; the layer itself
//! holds no state, performs no I/O and defines no error channel.
//!
//! The contracts on the traits are the substance of the layer: a result type
//! must expose the same content on every read, and an algorithm must hand
//! every input point to exactly one cluster or to the noise. The [`line`]
//! module carries a small reference implementation that discharges these
//! obligations.

use vstd::prelude::*;
use vstd::std_specs::cmp::PartialOrdIs;
use vstd::std_specs::cmp::PartialOrdSpec;

pub mod line;

verus! {

/// Functionality to determine the proximity between datapoints.
///
/// The `distance` between two values need not correspond to the classical
/// definition of the word: it could be a time difference or any other
/// measurable and comparable difference between two data points. No metric
/// axioms are imposed: an implementation may be asymmetric, and nothing
/// requires non-negativity or a triangle inequality. The two sides of the
/// comparison may even be of different types.
pub trait Proximity<Other = Self> {
    /// The ordered, freely copyable value that a distance measurement yields.
    type Output: PartialOrd + Copy;

    /// The distance that [`Self::distance`] measures, as a mathematical
    /// function of the two points alone.
    spec fn distance_spec(&self, other: &Other) -> Self::Output;

    /// Returns the 'distance' between this datapoint and another.
    fn distance(&self, other: &Other) -> (d: Self::Output)
        ensures
            d == self.distance_spec(other),
    ;

    /// Returns `true` if the two data points are 'close' to each other.
    ///
    /// For the default implementation, 'close' means any distance that is
    /// less than or equal to `epsilon` under the ordering of
    /// [`Self::Output`]. An implementation may override this method with a
    /// different closeness policy; the stated meaning binds only those that
    /// keep the default.
    fn is_near(&self, other: &Other, epsilon: Self::Output) -> (r: bool)
        default_ensures
            <Self::Output as PartialOrdSpec>::obeys_partial_cmp_spec() ==> r
                == self.distance_spec(other).is_le(&epsilon),
    {
        self.distance(other).le(&epsilon)
    }
}

/// Holds when `clusters` and `noise` together cover `input` exactly: taken as
/// a multiset, the members of all clusters plus the noise are the input,
/// so every input point stands in exactly one place, none twice, none
/// dropped.
pub open spec fn is_partition_of<T>(clusters: Seq<Seq<T>>, noise: Seq<T>, input: Seq<T>) -> bool {
    (clusters.flatten() + noise).to_multiset() == input.to_multiset()
}

/// Functionality for accessing clustered data.
///
/// Implementing this trait provides a common interface into clustered data
/// without restricting the storage to a specific concrete type. The two
/// accessors are pure reads: each returns exactly the content that the spec
/// views `clusters_spec` and `noise_spec` give, so repeated calls on an
/// unmodified value expose the same content every time.
pub trait Clustered<T> {
    /// The clusters that this value holds, each as the sequence of its
    /// member points.
    spec fn clusters_spec(&self) -> Seq<Seq<T>>;

    /// The points that this value holds outside every cluster.
    spec fn noise_spec(&self) -> Seq<T>;

    /// Returns a list of clustered datapoints.
    fn clusters(&self) -> (found: Vec<Vec<T>>)
        ensures
            found@.len() == self.clusters_spec().len(),
            forall|i: int| 0 <= i < found@.len() ==> #[trigger] found@[i]@ == self.clusters_spec()[i],
    ;

    /// Returns a list of all the datapoints that didn't fit into any
    /// clusters.
    fn noise(&self) -> (unassigned: Vec<T>)
        ensures
            unassigned@ == self.noise_spec(),
    ;
}

/// Base functionality of a clustering algorithm.
///
/// To accommodate the various required parameters of different algorithms, it
/// is expected that this trait is implemented by types that carry their own
/// configuration, for instance as fields in a struct.
///
/// The layer deliberately offers no error channel on `cluster`: an
/// implementation either returns a complete partition or handles failure by
/// its own means before reaching this interface.
pub trait Algorithm<T> {
    /// The concrete result representation this algorithm produces.
    type Output: Clustered<T>;

    /// Cluster the given data.
    ///
    /// The input is read-only and is never mutated; the returned value is
    /// owned by the caller. Every implementation must hand back a partition
    /// of its input: each submitted point appears in exactly one cluster or
    /// in the noise.
    fn cluster(&self, clusterables: &[T]) -> (found: Self::Output)
        ensures
            is_partition_of(found.clusters_spec(), found.noise_spec(), clusterables@),
    ;
}

/// Reading a clustered result is idempotent: the content that `clusters` and
/// `noise` return is fixed by the result value alone, so any two reads of the
/// same unmodified value agree.
pub proof fn lemma_repeated_reads_agree<T, C: Clustered<T>>(
    c: &C,
    clusters1: Seq<Seq<T>>,
    noise1: Seq<T>,
    clusters2: Seq<Seq<T>>,
    noise2: Seq<T>,
)
    requires
        clusters1 == c.clusters_spec(),
        noise1 == c.noise_spec(),
        clusters2 == c.clusters_spec(),
        noise2 == c.noise_spec(),
    ensures
        clusters1 == clusters2,
        noise1 == noise2,
{
}

/// A partition of `input` accounts for every point exactly once, so the
/// member count over all clusters plus the noise count equals the input
/// count.
pub proof fn lemma_partition_size<T>(clusters: Seq<Seq<T>>, noise: Seq<T>, input: Seq<T>)
    requires
        is_partition_of(clusters, noise, input),
    ensures
        clusters.flatten().len() + noise.len() == input.len(),
{
    broadcast use vstd::seq_lib::group_to_multiset_ensures;

    assert((clusters.flatten() + noise).to_multiset().len() == (clusters.flatten() + noise).len());
    assert(input.to_multiset().len() == input.len());
}

/// A partition of an empty input is itself empty: there is no noise, and the
/// clusters hold no point at all.
pub proof fn lemma_empty_partition<T>(clusters: Seq<Seq<T>>, noise: Seq<T>)
    requires
        is_partition_of(clusters, noise, Seq::<T>::empty()),
    ensures
        noise == Seq::<T>::empty(),
        clusters.flatten() == Seq::<T>::empty(),
{
    lemma_partition_size(clusters, noise, Seq::<T>::empty());
    assert(noise =~= Seq::<T>::empty());
    assert(clusters.flatten() =~= Seq::<T>::empty());
}

} // verus!
