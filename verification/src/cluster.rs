//! The clustering run: seeding the centroids, the refinement pass, and a
//! fixed number of passes in sequence.

use crate::accumulate::{accumulate, cluster_tally, tallies};
use crate::bucket::{Bucket, Tally};
use crate::color::Color;
use crate::error::Error;
use crate::metric::Metric;
use rand::Rng;
use rand::rngs::StdRng;
use vstd::prelude::*;

verus! {

/// The random source that the initializer draws from: `StdRng` of rand.
/// Nothing is known of a value of it.
#[verifier::external_type_specification]
#[verifier::external_body]
pub struct ExStdRng(rand::rngs::StdRng);

/// Whether every bucket of the set holds at least one pixel, so that each
/// has an average color.
pub open spec fn is_centroid_set(centroids: Seq<Tally>) -> bool {
    forall|j: int| 0 <= j < centroids.len() ==> (#[trigger] centroids[j]).count > 0
}

/// The average colors of a centroid set, in order.
pub open spec fn palette_of(centroids: Seq<Tally>) -> Seq<Color> {
    Seq::new(centroids.len(), |j: int| centroids[j].color())
}

/// What becomes of one centroid in an iteration: the average of the pixels
/// assigned to it, or, where none was assigned, its previous average.
pub open spec fn refined_tally(sum: Tally, previous: Tally) -> Tally {
    if sum.count == 0 {
        previous.mean()
    } else {
        sum.mean()
    }
}

/// The centroid set after one iteration over the pixels.
pub open spec fn refined(pixels: Seq<Color>, centroids: Seq<Tally>, metric: Metric) -> Seq<Tally> {
    Seq::new(
        centroids.len(),
        |j: int|
            refined_tally(cluster_tally(pixels, palette_of(centroids), metric, j), centroids[j]),
    )
}

/// The centroid set after `n` iterations over the pixels.
pub open spec fn refined_times(
    pixels: Seq<Color>,
    centroids: Seq<Tally>,
    metric: Metric,
    n: nat,
) -> Seq<Tally>
    decreases n,
{
    if n == 0 {
        centroids
    } else {
        refined(pixels, refined_times(pixels, centroids, metric, (n - 1) as nat), metric)
    }
}

/// Why an iteration is refused, if it is: a cluster count of zero or a metric
/// that is not defined, then a centroid set of another size than `k`, then a
/// centroid that holds no pixel, then an image without pixels.
pub open spec fn rejection(
    pixels: Seq<Color>,
    centroids: Seq<Tally>,
    k: nat,
    metric: Metric,
) -> Option<Error> {
    if k == 0 || !metric.valid() {
        Some(Error::InvalidParameter)
    } else if centroids.len() != k {
        Some(Error::DimensionMismatch)
    } else if !is_centroid_set(centroids) {
        Some(Error::InvalidParameter)
    } else if pixels.len() == 0 {
        Some(Error::EmptyImage)
    } else {
        None
    }
}

/// The centroid set seeded with the pixels at the sampled positions.
pub open spec fn seeded(pixels: Seq<Color>, picks: Seq<usize>) -> Seq<Tally> {
    Seq::new(picks.len(), |j: int| Tally::seed(pixels[picks[j] as int]))
}

/// Whether every sampled position lies in an image of `len` pixels.
pub open spec fn in_range(picks: Seq<usize>, len: nat) -> bool {
    forall|j: int| 0 <= j < picks.len() ==> (#[trigger] picks[j]) < len
}

/// The average colors of a centroid set, or `None` where a bucket of the set
/// holds no pixel.
pub fn palette(buckets: &Vec<Bucket>) -> (colors: Option<Vec<Color>>)
    ensures
        colors is Some <==> is_centroid_set(tallies(buckets@)),
        colors is Some ==> colors->0@ == palette_of(tallies(buckets@)),
{
    let mut colors: Vec<Color> = Vec::new();
    let mut j: usize = 0;
    while j < buckets.len()
        invariant
            j <= buckets.len(),
            colors.len() == j,
            forall|i: int| 0 <= i < j ==> (#[trigger] buckets@[i])@.count > 0,
            forall|i: int| 0 <= i < j ==> #[trigger] colors@[i] == buckets@[i]@.color(),
        decreases buckets.len() - j,
    {
        if buckets[j].num_pixels() == 0 {
            assert(tallies(buckets@)[j as int].count == 0);
            return None;
        }
        colors.push(buckets[j].to_rgb());
        j = j + 1;
    }
    assert(colors@ =~= palette_of(tallies(buckets@)));
    Some(colors)
}

/// Collapses every accumulator to its average. One that received no pixel
/// takes the average of the centroid it was to replace.
pub fn average_all(sums: &Vec<Bucket>, previous: &Vec<Bucket>) -> (next: Vec<Bucket>)
    requires
        sums.len() == previous.len(),
        is_centroid_set(tallies(previous@)),
    ensures
        tallies(next@) == Seq::new(
            sums.len() as nat,
            |j: int| refined_tally(sums@[j]@, previous@[j]@),
        ),
{
    let mut next: Vec<Bucket> = Vec::new();
    let mut j: usize = 0;
    while j < sums.len()
        invariant
            j <= sums.len(),
            sums.len() == previous.len(),
            next.len() == j,
            is_centroid_set(tallies(previous@)),
            forall|i: int|
                0 <= i < j ==> (#[trigger] next@[i])@ == refined_tally(sums@[i]@, previous@[i]@),
        decreases sums.len() - j,
    {
        assert(tallies(previous@)[j as int].count > 0);
        let bucket = if sums[j].num_pixels() == 0 {
            previous[j].average()
        } else {
            sums[j].average()
        };
        next.push(bucket);
        j = j + 1;
    }
    assert(tallies(next@) =~= Seq::new(
        sums.len() as nat,
        |j: int| refined_tally(sums@[j]@, previous@[j]@),
    ));
    next
}

/// One refinement pass. Every pixel is assigned to the centroid whose average
/// color is nearest, the lowest index winning a tie; the pixels of each
/// cluster are summed in fresh accumulators, in parallel; and each sum is
/// collapsed to its average, which counts as one pixel. A centroid that
/// received no pixel keeps its previous average.
///
/// The pass is refused with `InvalidParameter` where `k` is zero or the
/// metric is not defined, else with `DimensionMismatch` where the set does
/// not hold `k` centroids, else with `InvalidParameter` where a centroid
/// holds no pixel, else with `EmptyImage` where the image has no pixel.
pub fn iterate(img: &Vec<Color>, buckets: Vec<Bucket>, k: usize, metric: Metric) -> (next: Result<
    Vec<Bucket>,
    Error,
>)
    ensures
        match next {
            Ok(set) => rejection(img@, tallies(buckets@), k as nat, metric) is None && tallies(set@)
                == refined(img@, tallies(buckets@), metric),
            Err(e) => rejection(img@, tallies(buckets@), k as nat, metric) == Some(e),
        },
{
    if k == 0 || !metric.is_valid() {
        return Err(Error::InvalidParameter);
    }
    if buckets.len() != k {
        return Err(Error::DimensionMismatch);
    }
    let colors = match palette(&buckets) {
        Some(colors) => colors,
        None => {
            return Err(Error::InvalidParameter);
        },
    };
    if img.len() == 0 {
        return Err(Error::EmptyImage);
    }
    let sums = accumulate(img, &colors, metric);
    let next = average_all(&sums, &buckets);
    assert(tallies(next@) =~= refined(img@, tallies(buckets@), metric)) by {
        assert forall|j: int| 0 <= j < sums.len() implies sums@[j]@ == cluster_tally(
            img@,
            palette_of(tallies(buckets@)),
            metric,
            j,
        ) by {
            assert(tallies(sums@)[j] == sums@[j]@);
        }
    }
    Ok(next)
}

/// Runs `iterations` refinement passes, each on the result of the one before.
/// The run is refused as a single pass is, also where `iterations` is zero;
/// else it returns the centroid set after that many passes.
pub fn refine(
    img: &Vec<Color>,
    buckets: Vec<Bucket>,
    k: usize,
    iterations: usize,
    metric: Metric,
) -> (last: Result<Vec<Bucket>, Error>)
    ensures
        match last {
            Ok(set) => rejection(img@, tallies(buckets@), k as nat, metric) is None && tallies(set@)
                == refined_times(img@, tallies(buckets@), metric, iterations as nat),
            Err(e) => rejection(img@, tallies(buckets@), k as nat, metric) == Some(e),
        },
{
    if k == 0 || !metric.is_valid() {
        return Err(Error::InvalidParameter);
    }
    if buckets.len() != k {
        return Err(Error::DimensionMismatch);
    }
    if palette(&buckets).is_none() {
        return Err(Error::InvalidParameter);
    }
    if img.len() == 0 {
        return Err(Error::EmptyImage);
    }
    let ghost first = tallies(buckets@);
    let mut current = buckets;
    let mut done: usize = 0;
    while done < iterations
        invariant
            done <= iterations,
            rejection(img@, first, k as nat, metric) is None,
            rejection(img@, tallies(current@), k as nat, metric) is None,
            tallies(current@) == refined_times(img@, first, metric, done as nat),
        decreases iterations - done,
    {
        let ghost before = tallies(current@);
        match iterate(img, current, k, metric) {
            Ok(next) => {
                proof {
                    lemma_refined_is_centroid_set(img@, before, metric);
                }
                current = next;
            },
            Err(e) => {
                return Err(e);
            },
        }
        done = done + 1;
    }
    Ok(current)
}

/// An iteration yields as many centroids as it was given, each counting one
/// pixel.
pub proof fn lemma_refined_is_centroid_set(
    pixels: Seq<Color>,
    centroids: Seq<Tally>,
    metric: Metric,
)
    ensures
        refined(pixels, centroids, metric).len() == centroids.len(),
        is_centroid_set(refined(pixels, centroids, metric)),
        forall|j: int|
            0 <= j < centroids.len() ==> (#[trigger] refined(pixels, centroids, metric)[j]).count
                == 1,
{
}

/// Seeds one bucket with the pixel at each sampled position, in order.
///
/// Seeding is refused with `InvalidParameter` where no position is given or
/// one lies outside the image, and with `EmptyImage` where positions are
/// given and the image has no pixel.
pub fn init_buckets(data: &Vec<Color>, picks: &Vec<usize>) -> (set: Result<Vec<Bucket>, Error>)
    ensures
        picks.len() == 0 ==> set == Err::<Vec<Bucket>, Error>(Error::InvalidParameter),
        picks.len() > 0 && data.len() == 0 ==> set == Err::<Vec<Bucket>, Error>(Error::EmptyImage),
        picks.len() > 0 && data.len() > 0 && !in_range(picks@, data.len() as nat) ==> set == Err::<
            Vec<Bucket>,
            Error,
        >(Error::InvalidParameter),
        picks.len() > 0 && data.len() > 0 && in_range(picks@, data.len() as nat) ==> set is Ok
            && tallies(set->Ok_0@) == seeded(data@, picks@),
{
    if picks.len() == 0 {
        return Err(Error::InvalidParameter);
    }
    if data.len() == 0 {
        return Err(Error::EmptyImage);
    }
    let mut set: Vec<Bucket> = Vec::new();
    let mut j: usize = 0;
    while j < picks.len()
        invariant
            j <= picks.len(),
            data.len() > 0,
            set.len() == j,
            forall|i: int| 0 <= i < j ==> (#[trigger] picks@[i]) < data.len(),
            forall|i: int|
                0 <= i < j ==> (#[trigger] set@[i])@ == Tally::seed(data@[picks@[i] as int]),
        decreases picks.len() - j,
    {
        if picks[j] >= data.len() {
            assert(!(picks@[j as int] < data.len()));
            return Err(Error::InvalidParameter);
        }
        set.push(Bucket::new(&data[picks[j]]));
        j = j + 1;
    }
    assert(tallies(set@) =~= seeded(data@, picks@));
    Ok(set)
}

/// Draws a position in `0..len` from the random source, by `Rng::gen_range`
/// of rand. All that is claimed of the draw is that it lies in the range;
/// an empty range, on which `gen_range` panics, is left out.
#[verifier::external_body]
fn sample_index(rng: &mut StdRng, len: usize) -> (index: usize)
    requires
        len > 0,
    ensures
        index < len,
{
    rng.gen_range(0..len)
}

/// Seeds `means` centroids from pixels drawn from the image at random, with
/// replacement: two centroids may start from the same pixel.
///
/// Initialization is refused with `InvalidParameter` where `means` is zero,
/// and else with `EmptyImage` where the image has no pixel. Otherwise it
/// succeeds, and the set is [`seeded`] with `means` positions of the image.
pub fn init_centroids(data: &Vec<Color>, means: usize, rng: &mut StdRng) -> (set: Result<
    Vec<Bucket>,
    Error,
>)
    ensures
        means == 0 ==> set == Err::<Vec<Bucket>, Error>(Error::InvalidParameter),
        means > 0 && data.len() == 0 ==> set == Err::<Vec<Bucket>, Error>(Error::EmptyImage),
        means > 0 && data.len() > 0 ==> set is Ok && drawn_from(
            tallies(set->Ok_0@),
            data@,
            means as nat,
        ),
{
    if means == 0 {
        return Err(Error::InvalidParameter);
    }
    if data.len() == 0 {
        return Err(Error::EmptyImage);
    }
    let mut picks: Vec<usize> = Vec::new();
    let mut j: usize = 0;
    while j < means
        invariant
            j <= means,
            picks.len() == j,
            data.len() > 0,
            in_range(picks@, data.len() as nat),
        decreases means - j,
    {
        let index = sample_index(rng, data.len());
        picks.push(index);
        j = j + 1;
    }
    init_buckets(data, &picks)
}

/// Whether `set` holds `k` centroids, each seeded with a pixel of the image.
pub open spec fn drawn_from(set: Seq<Tally>, pixels: Seq<Color>, k: nat) -> bool {
    exists|picks: Seq<usize>|
        picks.len() == k && in_range(picks, pixels.len()) && set == #[trigger] seeded(pixels, picks)
}

/// A whole clustering run: `k` centroids are seeded from randomly sampled
/// pixels and refined `iterations` times.
///
/// The run is refused with `InvalidParameter` where `k` is zero or the metric
/// is not defined, and else with `EmptyImage` where the image has no pixel.
/// Otherwise it succeeds, and its result is the centroid set that
/// `iterations` passes make of some set seeded from the image.
pub fn cluster(
    img: &Vec<Color>,
    k: usize,
    iterations: usize,
    metric: Metric,
    rng: &mut StdRng,
) -> (last: Result<Vec<Bucket>, Error>)
    ensures
        k == 0 || !metric.valid() ==> last == Err::<Vec<Bucket>, Error>(Error::InvalidParameter),
        k > 0 && metric.valid() && img.len() == 0 ==> last == Err::<Vec<Bucket>, Error>(
            Error::EmptyImage,
        ),
        k > 0 && metric.valid() && img.len() > 0 ==> last is Ok && exists|first: Seq<Tally>|
            #[trigger] drawn_from(first, img@, k as nat) && tallies(last->Ok_0@) == refined_times(
                img@,
                first,
                metric,
                iterations as nat,
            ),
{
    if k == 0 || !metric.is_valid() {
        return Err(Error::InvalidParameter);
    }
    match init_centroids(img, k, rng) {
        Ok(first) => {
            let ghost seeds = tallies(first@);
            proof {
                let picks = choose|picks: Seq<usize>|
                    picks.len() == k && in_range(picks, img@.len()) && seeds == #[trigger] seeded(
                        img@,
                        picks,
                    );
                assert(seeds.len() == k);
                assert(is_centroid_set(seeds));
            }
            let last = refine(img, first, k, iterations, metric);
            assert(drawn_from(seeds, img@, k as nat));
            last
        },
        Err(e) => Err(e),
    }
}

} // verus!
