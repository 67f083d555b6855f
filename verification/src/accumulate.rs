//! Assignment and accumulation: every pixel is folded into the accumulator of
//! its nearest palette color, shard by shard in parallel, and the shards'
//! accumulators are merged.

use crate::assign::{lemma_nearest_is_nearest, nearest, nearest_centroid};
use crate::bucket::{Bucket, Tally};
use crate::color::Color;
use crate::metric::Metric;
use rayon::iter::{IntoParallelRefIterator, ParallelIterator};
use vstd::prelude::*;

verus! {

/// The tallies that a sequence of buckets holds.
pub open spec fn tallies(buckets: Seq<Bucket>) -> Seq<Tally> {
    Seq::new(buckets.len(), |j: int| buckets[j]@)
}

/// The tally of cluster `j`: the sum and the number of the pixels that are
/// assigned to palette color `j`.
pub open spec fn cluster_tally(
    pixels: Seq<Color>,
    palette: Seq<Color>,
    metric: Metric,
    j: int,
) -> Tally
    decreases pixels.len(),
{
    if pixels.len() == 0 {
        Tally::zero()
    } else {
        let rest = cluster_tally(pixels.drop_last(), palette, metric, j);
        if nearest(pixels.last(), palette, metric) == j {
            rest.add_pixel(pixels.last())
        } else {
            rest
        }
    }
}

/// The tallies of all clusters, in palette order.
pub open spec fn cluster_tallies(
    pixels: Seq<Color>,
    palette: Seq<Color>,
    metric: Metric,
) -> Seq<Tally> {
    Seq::new(palette.len(), |j: int| cluster_tally(pixels, palette, metric, j))
}

/// The sum of the counts of a sequence of tallies.
pub open spec fn total_count(sums: Seq<Tally>) -> nat
    decreases sums.len(),
{
    if sums.len() == 0 {
        0
    } else {
        total_count(sums.drop_last()) + sums.last().count
    }
}

/// `k` tallies of no pixels: what a worker starts from.
pub open spec fn zero_tallies(k: nat) -> Seq<Tally> {
    Seq::new(k, |j: int| Tally::zero())
}

/// The accumulators after one pixel is folded into the one of its cluster.
pub open spec fn absorbed(
    acc: Seq<Tally>,
    pixel: Color,
    palette: Seq<Color>,
    metric: Metric,
) -> Seq<Tally> {
    let j = nearest(pixel, palette, metric);
    acc.update(j, acc[j].add_pixel(pixel))
}

/// What one worker makes of its shard: it folds the pixels, in order, into
/// accumulators that start empty.
pub open spec fn folded(pixels: Seq<Color>, palette: Seq<Color>, metric: Metric) -> Seq<Tally> {
    pixels.fold_left(
        zero_tallies(palette.len()),
        |acc: Seq<Tally>, pixel: Color| absorbed(acc, pixel, palette, metric),
    )
}

/// Two sets of accumulators added cluster by cluster.
pub open spec fn merged(a: Seq<Tally>, b: Seq<Tally>) -> Seq<Tally> {
    Seq::new(a.len(), |j: int| a[j].plus(b[j]))
}

/// How a range of pixels is handed out to workers: one worker takes all of
/// it, or it is cut in two and each part is handed out in turn.
pub enum Plan {
    /// One worker folds the whole range.
    Shard,
    /// The range is cut at position `at`; `left` is the plan for the pixels
    /// before the cut and `right` the plan for those from it on.
    Split { at: int, left: Box<Plan>, right: Box<Plan> },
}

impl Plan {
    /// Whether the plan cuts the range from `lo` to `hi` into contiguous
    /// shards, empty ones allowed.
    pub open spec fn covers(self, lo: int, hi: int) -> bool
        decreases self,
    {
        match self {
            Plan::Shard => lo <= hi,
            Plan::Split { at, left, right } => {
                &&& lo <= at <= hi
                &&& left.covers(lo, at)
                &&& right.covers(at, hi)
            },
        }
    }

    /// The accumulators that the plan ends with on the pixels from `lo` to
    /// `hi`. A worker's fold is merged into empty accumulators; the results
    /// of the two parts of a cut are merged, the earlier part on the left.
    pub open spec fn value(
        self,
        pixels: Seq<Color>,
        lo: int,
        hi: int,
        palette: Seq<Color>,
        metric: Metric,
    ) -> Seq<Tally>
        decreases self,
    {
        match self {
            Plan::Shard => merged(
                zero_tallies(palette.len()),
                folded(pixels.subrange(lo, hi), palette, metric),
            ),
            Plan::Split { at, left, right } => merged(
                left.value(pixels, lo, at, palette, metric),
                right.value(pixels, at, hi, palette, metric),
            ),
        }
    }
}

/// Merging accumulators is commutative and associative, and accumulators
/// that start empty are its identity. This is what makes it safe to fold the
/// shards apart and to merge them in any grouping.
pub proof fn lemma_merged_monoid(a: Seq<Tally>, b: Seq<Tally>, c: Seq<Tally>)
    requires
        a.len() == b.len(),
        b.len() == c.len(),
    ensures
        merged(a, b) == merged(b, a),
        merged(merged(a, b), c) == merged(a, merged(b, c)),
        merged(a, zero_tallies(a.len())) == a,
        merged(zero_tallies(a.len()), a) == a,
{
    assert(merged(a, b) =~= merged(b, a));
    assert(merged(merged(a, b), c) =~= merged(a, merged(b, c)));
    assert(merged(a, zero_tallies(a.len())) =~= a);
    assert(merged(zero_tallies(a.len()), a) =~= a);
}

/// A cluster's tally over two runs of pixels, one after the other, is the sum
/// of its tallies over each.
pub proof fn lemma_cluster_tally_concat(
    a: Seq<Color>,
    b: Seq<Color>,
    palette: Seq<Color>,
    metric: Metric,
    j: int,
)
    ensures
        cluster_tally(a + b, palette, metric, j) == cluster_tally(a, palette, metric, j).plus(
            cluster_tally(b, palette, metric, j),
        ),
    decreases b.len(),
{
    if b.len() == 0 {
        assert(a + b =~= a);
    } else {
        assert((a + b).drop_last() =~= a + b.drop_last());
        assert((a + b).last() == b.last());
        lemma_cluster_tally_concat(a, b.drop_last(), palette, metric, j);
    }
}

/// A cluster's tally is its tally without one of the pixels plus the tally of
/// that pixel alone.
proof fn lemma_cluster_tally_remove(
    pixels: Seq<Color>,
    palette: Seq<Color>,
    metric: Metric,
    j: int,
    i: int,
)
    requires
        0 <= i < pixels.len(),
    ensures
        cluster_tally(pixels, palette, metric, j) == cluster_tally(
            pixels.remove(i),
            palette,
            metric,
            j,
        ).plus(cluster_tally(seq![pixels[i]], palette, metric, j)),
{
    let before = pixels.take(i);
    let one = seq![pixels[i]];
    let after = pixels.skip(i + 1);
    assert(pixels =~= (before + one) + after);
    assert(pixels.remove(i) =~= before + after);
    lemma_cluster_tally_concat(before + one, after, palette, metric, j);
    lemma_cluster_tally_concat(before, one, palette, metric, j);
    lemma_cluster_tally_concat(before, after, palette, metric, j);
}

/// The tally of a cluster does not depend on the order of the pixels: two
/// images that hold the same pixels, each as often as the other, give every
/// cluster the same tally. Shards may therefore be interleaved as well as
/// contiguous.
pub proof fn lemma_order_of_pixels_is_immaterial(
    first: Seq<Color>,
    second: Seq<Color>,
    palette: Seq<Color>,
    metric: Metric,
    j: int,
)
    requires
        first.to_multiset() == second.to_multiset(),
    ensures
        cluster_tally(first, palette, metric, j) == cluster_tally(second, palette, metric, j),
    decreases first.len(),
{
    first.to_multiset_ensures();
    second.to_multiset_ensures();
    if first.len() > 0 {
        let x = first.last();
        assert(first[first.len() - 1] == x);
        assert(first.contains(x));
        assert(first.to_multiset().count(x) > 0);
        assert(second.to_multiset().count(x) > 0);
        assert(second.contains(x));
        let i = choose|i: int| 0 <= i < second.len() && second[i] == x;
        let last = first.len() - 1;
        assert(first.remove(last) =~= first.drop_last());
        lemma_order_of_pixels_is_immaterial(
            first.remove(last),
            second.remove(i),
            palette,
            metric,
            j,
        );
        lemma_cluster_tally_remove(first, palette, metric, j, last);
        lemma_cluster_tally_remove(second, palette, metric, j, i);
    }
}

/// A worker's fold of a shard gives every cluster its tally over the shard.
pub proof fn lemma_folded_is_cluster_tallies(
    pixels: Seq<Color>,
    palette: Seq<Color>,
    metric: Metric,
)
    requires
        palette.len() > 0,
    ensures
        folded(pixels, palette, metric) == cluster_tallies(pixels, palette, metric),
    decreases pixels.len(),
{
    let step = |acc: Seq<Tally>, pixel: Color| absorbed(acc, pixel, palette, metric);
    let start = zero_tallies(palette.len());
    reveal_with_fuel(Seq::fold_left, 2);
    if pixels.len() == 0 {
        assert(folded(pixels, palette, metric) =~= cluster_tallies(pixels, palette, metric));
    } else {
        let shorter = pixels.drop_last();
        lemma_folded_is_cluster_tallies(shorter, palette, metric);
        lemma_nearest_is_nearest(pixels.last(), palette, metric);
        assert(pixels.fold_left(start, step) == step(
            shorter.fold_left(start, step),
            pixels.last(),
        ));
        assert(folded(pixels, palette, metric) == absorbed(
            cluster_tallies(shorter, palette, metric),
            pixels.last(),
            palette,
            metric,
        ));
        assert(folded(pixels, palette, metric) =~= cluster_tallies(pixels, palette, metric));
    }
}

/// Whatever the plan, the accumulators it ends with hold every cluster's
/// tally over the range: the result does not depend on where the pixels are
/// cut into shards nor on the order in which the shards are merged.
pub proof fn lemma_plan_value(
    plan: Plan,
    pixels: Seq<Color>,
    lo: int,
    hi: int,
    palette: Seq<Color>,
    metric: Metric,
)
    requires
        plan.covers(lo, hi),
        0 <= lo <= hi <= pixels.len(),
        palette.len() > 0,
    ensures
        plan.value(pixels, lo, hi, palette, metric) == cluster_tallies(
            pixels.subrange(lo, hi),
            palette,
            metric,
        ),
    decreases plan,
{
    match plan {
        Plan::Shard => {
            lemma_folded_is_cluster_tallies(pixels.subrange(lo, hi), palette, metric);
            assert(plan.value(pixels, lo, hi, palette, metric) =~= cluster_tallies(
                pixels.subrange(lo, hi),
                palette,
                metric,
            ));
        },
        Plan::Split { at, left, right } => {
            lemma_plan_value(*left, pixels, lo, at, palette, metric);
            lemma_plan_value(*right, pixels, at, hi, palette, metric);
            assert(pixels.subrange(lo, hi) =~= pixels.subrange(lo, at) + pixels.subrange(at, hi));
            assert forall|j: int| 0 <= j < palette.len() implies cluster_tally(
                pixels.subrange(lo, hi),
                palette,
                metric,
                j,
            ) == cluster_tally(pixels.subrange(lo, at), palette, metric, j).plus(
                cluster_tally(pixels.subrange(at, hi), palette, metric, j),
            ) by {
                lemma_cluster_tally_concat(
                    pixels.subrange(lo, at),
                    pixels.subrange(at, hi),
                    palette,
                    metric,
                    j,
                );
            }
            assert(plan.value(pixels, lo, hi, palette, metric) =~= cluster_tallies(
                pixels.subrange(lo, hi),
                palette,
                metric,
            ));
        },
    }
}

/// Whether `sums` is what some plan for the whole image ends with.
pub open spec fn scheduled(
    sums: Seq<Tally>,
    pixels: Seq<Color>,
    palette: Seq<Color>,
    metric: Metric,
) -> bool {
    exists|plan: Plan| #[trigger]
        plan.covers(0, pixels.len() as int) && sums == plan.value(
            pixels,
            0,
            pixels.len() as int,
            palette,
            metric,
        )
}

/// What any plan for the whole image ends with is every cluster's tally over
/// the image.
pub proof fn lemma_scheduled_is_cluster_tallies(
    sums: Seq<Tally>,
    pixels: Seq<Color>,
    palette: Seq<Color>,
    metric: Metric,
)
    requires
        scheduled(sums, pixels, palette, metric),
        palette.len() > 0,
    ensures
        sums == cluster_tallies(pixels, palette, metric),
{
    let plan = choose|plan: Plan| #[trigger]
        plan.covers(0, pixels.len() as int) && sums == plan.value(
            pixels,
            0,
            pixels.len() as int,
            palette,
            metric,
        );
    lemma_plan_value(plan, pixels, 0, pixels.len() as int, palette, metric);
    assert(pixels.subrange(0, pixels.len() as int) =~= pixels);
}

/// Any two plans for the same range end with the same accumulators.
pub proof fn lemma_plans_agree(
    first: Plan,
    second: Plan,
    pixels: Seq<Color>,
    palette: Seq<Color>,
    metric: Metric,
)
    requires
        first.covers(0, pixels.len() as int),
        second.covers(0, pixels.len() as int),
        palette.len() > 0,
    ensures
        first.value(pixels, 0, pixels.len() as int, palette, metric) == second.value(
            pixels,
            0,
            pixels.len() as int,
            palette,
            metric,
        ),
{
    lemma_plan_value(first, pixels, 0, pixels.len() as int, palette, metric);
    lemma_plan_value(second, pixels, 0, pixels.len() as int, palette, metric);
}

/// `k` empty buckets.
pub fn empty_buckets(k: usize) -> (buckets: Vec<Bucket>)
    ensures
        tallies(buckets@) == zero_tallies(k as nat),
{
    let mut buckets: Vec<Bucket> = Vec::new();
    let mut j: usize = 0;
    while j < k
        invariant
            j <= k,
            buckets.len() == j,
            forall|i: int| 0 <= i < j ==> (#[trigger] buckets@[i])@ == Tally::zero(),
        decreases k - j,
    {
        buckets.push(Bucket::empty());
        j = j + 1;
    }
    assert(tallies(buckets@) =~= zero_tallies(k as nat));
    buckets
}

/// Folds one pixel into the accumulator of the cluster it is assigned to.
pub fn absorb(acc: Vec<Bucket>, pixel: &Color, palette: &Vec<Color>, metric: Metric) -> (out: Vec<
    Bucket,
>)
    requires
        palette.len() > 0,
        acc.len() == palette.len(),
        forall|j: int| 0 <= j < acc.len() ==> (#[trigger] acc@[j])@.count < u64::MAX,
    ensures
        tallies(out@) == absorbed(tallies(acc@), *pixel, palette@, metric),
{
    let mut acc = acc;
    let ghost before = acc@;
    let j = nearest_centroid(pixel, palette, metric);
    let bucket = acc[j].add_pixel(pixel);
    acc.set(j, bucket);
    assert(tallies(acc@) =~= absorbed(tallies(before), *pixel, palette@, metric));
    acc
}

/// Adds two sets of accumulators cluster by cluster.
pub fn combine(a: Vec<Bucket>, b: Vec<Bucket>) -> (out: Vec<Bucket>)
    requires
        a.len() == b.len(),
        forall|j: int| 0 <= j < a.len() ==> (#[trigger] a@[j])@.count + b@[j]@.count <= u64::MAX,
    ensures
        tallies(out@) == merged(tallies(a@), tallies(b@)),
{
    let mut out = a;
    let ghost before = out@;
    let mut j: usize = 0;
    while j < out.len()
        invariant
            j <= out.len(),
            out.len() == b.len(),
            out.len() == before.len(),
            forall|i: int| 0 <= i < j ==> (#[trigger] out@[i])@ == before[i]@.plus(b@[i]@),
            forall|i: int| j <= i < out.len() ==> #[trigger] out@[i] == before[i],
            forall|i: int|
                0 <= i < before.len() ==> (#[trigger] before[i])@.count + b@[i]@.count
                    <= u64::MAX,
        decreases out.len() - j,
    {
        let mut bucket = out[j];
        bucket.add_assign(b[j]);
        out.set(j, bucket);
        j = j + 1;
    }
    assert(tallies(out@) =~= merged(tallies(before), tallies(b@)));
    out
}

/// Hands the image to rayon: `par_iter` on the pixels, `fold` with
/// [`absorb`] from empty buckets, then `reduce` with [`combine`] and empty
/// buckets as its identity.
///
/// What is taken on trust is how rayon schedules that work. It cuts the
/// pixels into contiguous ranges, in some way of its choosing; one worker
/// folds each range in order, starting from the fold's identity, and hands
/// its accumulators to `reduce`, which merges them into its own identity;
/// the results of the two halves of a cut are merged with the earlier half
/// on the left. The contract says that the result is the value of such a
/// [`Plan`], and nothing about which plan it is.
///
/// Every accumulator that arises on the way holds the tallies of some range
/// of the image, so by [`lemma_cluster_count_at_most_len`] none counts more
/// pixels than the image has, and the counts that [`absorb`] and [`combine`]
/// add stay within `u64`.
#[verifier::external_body]
fn fold_reduce(image: &Vec<Color>, palette: &Vec<Color>, metric: Metric) -> (sums: Vec<Bucket>)
    requires
        palette.len() > 0,
    ensures
        scheduled(tallies(sums@), image@, palette@, metric),
{
    let k = palette.len();
    image
        .par_iter()
        .fold(|| empty_buckets(k), |acc, pixel| absorb(acc, pixel, palette, metric))
        .reduce(|| empty_buckets(k), |left, right| combine(left, right))
}

/// Assigns every pixel of the image to its nearest palette color and sums
/// the pixels of each cluster, in parallel. Bucket `j` of the result holds
/// the sum and the number of the pixels assigned to color `j`; together the
/// buckets hold every pixel of the image once.
pub fn accumulate(image: &Vec<Color>, palette: &Vec<Color>, metric: Metric) -> (sums: Vec<Bucket>)
    requires
        palette.len() > 0,
    ensures
        tallies(sums@) == cluster_tallies(image@, palette@, metric),
        sums.len() == palette.len(),
        total_count(tallies(sums@)) == image.len(),
{
    let sums = fold_reduce(image, palette, metric);
    proof {
        lemma_scheduled_is_cluster_tallies(tallies(sums@), image@, palette@, metric);
        lemma_counts_conserved(image@, palette@, metric);
        assert(tallies(sums@).len() == palette.len());
    }
    sums
}

/// A cluster counts no more pixels than there are.
pub proof fn lemma_cluster_count_at_most_len(
    pixels: Seq<Color>,
    palette: Seq<Color>,
    metric: Metric,
    j: int,
)
    ensures
        cluster_tally(pixels, palette, metric, j).count <= pixels.len(),
    decreases pixels.len(),
{
    if pixels.len() > 0 {
        lemma_cluster_count_at_most_len(pixels.drop_last(), palette, metric, j);
    }
}

/// Folding a pixel into one accumulator raises the sum of the counts by one.
proof fn lemma_total_count_update(sums: Seq<Tally>, j: int, pixel: Color)
    requires
        0 <= j < sums.len(),
    ensures
        total_count(sums.update(j, sums[j].add_pixel(pixel))) == total_count(sums) + 1,
    decreases sums.len(),
{
    let after = sums.update(j, sums[j].add_pixel(pixel));
    if j == sums.len() - 1 {
        assert(after.drop_last() =~= sums.drop_last());
    } else {
        assert(after.drop_last() =~= sums.drop_last().update(
            j,
            sums.drop_last()[j].add_pixel(pixel),
        ));
        lemma_total_count_update(sums.drop_last(), j, pixel);
    }
}

/// Tallies of no pixels count no pixels.
proof fn lemma_total_count_zero(k: nat)
    ensures
        total_count(zero_tallies(k)) == 0,
    decreases k,
{
    if k > 0 {
        assert(zero_tallies(k).drop_last() =~= zero_tallies((k - 1) as nat));
        lemma_total_count_zero((k - 1) as nat);
    }
}

/// The counts of the clusters add up to the number of pixels: every pixel is
/// assigned to one cluster and to one only.
pub proof fn lemma_counts_conserved(pixels: Seq<Color>, palette: Seq<Color>, metric: Metric)
    requires
        palette.len() > 0,
    ensures
        total_count(cluster_tallies(pixels, palette, metric)) == pixels.len(),
    decreases pixels.len(),
{
    if pixels.len() == 0 {
        assert(cluster_tallies(pixels, palette, metric) =~= zero_tallies(palette.len()));
        lemma_total_count_zero(palette.len());
    } else {
        let shorter = pixels.drop_last();
        lemma_counts_conserved(shorter, palette, metric);
        lemma_nearest_is_nearest(pixels.last(), palette, metric);
        let j = nearest(pixels.last(), palette, metric);
        let before = cluster_tallies(shorter, palette, metric);
        assert(cluster_tallies(pixels, palette, metric) =~= before.update(
            j,
            before[j].add_pixel(pixels.last()),
        ));
        lemma_total_count_update(before, j, pixels.last());
    }
}

} // verus!
