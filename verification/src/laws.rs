//! What holds of every clustering run, proved from the definitions of the
//! refinement pass.

use crate::accumulate::cluster_tally;
use crate::assign::{lemma_nearest_is_nearest, lemma_nearest_of_one, nearest};
use crate::bucket::{lemma_seed_color, Tally};
use crate::cluster::{drawn_from, in_range, palette_of, refined, refined_times, seeded};
use crate::color::Color;
use crate::metric::Metric;
use vstd::prelude::*;

verus! {

/// Whether every channel of `p` lies between that channel of `lo` and of `hi`.
pub open spec fn within(p: Color, lo: Color, hi: Color) -> bool {
    &&& lo.r <= p.r <= hi.r
    &&& lo.g <= p.g <= hi.g
    &&& lo.b <= p.b <= hi.b
}

/// Whether every pixel that is assigned to cluster `j` lies within the box
/// from `lo` to `hi`.
pub open spec fn cluster_within(
    pixels: Seq<Color>,
    palette: Seq<Color>,
    metric: Metric,
    j: int,
    lo: Color,
    hi: Color,
) -> bool {
    forall|i: int|
        0 <= i < pixels.len() && nearest(#[trigger] pixels[i], palette, metric) == j ==> within(
            pixels[i],
            lo,
            hi,
        )
}

/// The tally of all pixels of an image: their sum and their number.
pub open spec fn image_tally(pixels: Seq<Color>) -> Tally
    decreases pixels.len(),
{
    if pixels.len() == 0 {
        Tally::zero()
    } else {
        image_tally(pixels.drop_last()).add_pixel(pixels.last())
    }
}

/// A centroid set of `k` centroids that all have the color `color`.
pub open spec fn uniform_set(k: nat, color: Color) -> Seq<Tally> {
    Seq::new(k, |j: int| Tally::seed(color))
}

/// The channel sums of a cluster lie between its count times the lower and
/// times the upper bound of its pixels.
proof fn lemma_cluster_sum_bounds(
    pixels: Seq<Color>,
    palette: Seq<Color>,
    metric: Metric,
    j: int,
    lo: Color,
    hi: Color,
)
    requires
        cluster_within(pixels, palette, metric, j, lo, hi),
    ensures
        ({
            let t = cluster_tally(pixels, palette, metric, j);
            &&& lo.r * t.count <= t.r <= hi.r * t.count
            &&& lo.g * t.count <= t.g <= hi.g * t.count
            &&& lo.b * t.count <= t.b <= hi.b * t.count
        }),
    decreases pixels.len(),
{
    if pixels.len() > 0 {
        let shorter = pixels.drop_last();
        assert forall|i: int|
            0 <= i < shorter.len() && nearest(#[trigger] shorter[i], palette, metric)
                == j implies within(shorter[i], lo, hi) by {
            assert(shorter[i] == pixels[i]);
        }
        lemma_cluster_sum_bounds(shorter, palette, metric, j, lo, hi);
        let rest = cluster_tally(shorter, palette, metric, j);
        if nearest(pixels.last(), palette, metric) == j {
            assert(within(pixels[pixels.len() - 1], lo, hi));
            let c = rest.count as int;
            assert(lo.r * (c + 1) == lo.r * c + lo.r && hi.r * (c + 1) == hi.r * c + hi.r
                && lo.g * (c + 1) == lo.g * c + lo.g && hi.g * (c + 1) == hi.g * c + hi.g
                && lo.b * (c + 1) == lo.b * c + lo.b && hi.b * (c + 1) == hi.b * c + hi.b)
                by (nonlinear_arith);
        }
    }
}

/// A sum of `count` values between `lo` and `hi`, divided by `count`, lies
/// between `lo` and `hi`.
proof fn lemma_quotient_between(sum: nat, count: nat, lo: u16, hi: u16)
    requires
        count > 0,
        lo * count <= sum <= hi * count,
    ensures
        lo <= sum / count <= hi,
        ((sum / count) as u16) == sum / count,
{
    assert(lo <= sum / count <= hi) by (nonlinear_arith)
        requires
            count > 0,
            lo * count <= sum <= hi * count,
    ;
}

/// The sums of a cluster never exceed what its count of pixels can add up to.
pub proof fn lemma_cluster_tally_bounded(
    pixels: Seq<Color>,
    palette: Seq<Color>,
    metric: Metric,
    j: int,
)
    ensures
        cluster_tally(pixels, palette, metric, j).bounded(),
{
    let lo = Color { r: 0, g: 0, b: 0 };
    let hi = Color { r: 65535, g: 65535, b: 65535 };
    lemma_cluster_sum_bounds(pixels, palette, metric, j, lo, hi);
}

/// After an iteration, the color of a centroid that pixels were assigned to
/// lies, channel by channel, within the range of those pixels: neither below
/// their least value nor above their greatest.
pub proof fn lemma_average_within_range(
    pixels: Seq<Color>,
    centroids: Seq<Tally>,
    metric: Metric,
    j: int,
    lo: Color,
    hi: Color,
)
    requires
        0 <= j < centroids.len(),
        cluster_tally(pixels, palette_of(centroids), metric, j).count > 0,
        cluster_within(pixels, palette_of(centroids), metric, j, lo, hi),
    ensures
        within(refined(pixels, centroids, metric)[j].color(), lo, hi),
        within(cluster_tally(pixels, palette_of(centroids), metric, j).color(), lo, hi),
{
    let t = cluster_tally(pixels, palette_of(centroids), metric, j);
    lemma_cluster_sum_bounds(pixels, palette_of(centroids), metric, j, lo, hi);
    lemma_quotient_between(t.r, t.count, lo.r, hi.r);
    lemma_quotient_between(t.g, t.count, lo.g, hi.g);
    lemma_quotient_between(t.b, t.count, lo.b, hi.b);
    lemma_seed_color(t.color());
}

/// With a single color in the palette, its cluster holds the whole image.
pub proof fn lemma_single_cluster_takes_all(pixels: Seq<Color>, palette: Seq<Color>, metric: Metric)
    requires
        palette.len() == 1,
    ensures
        cluster_tally(pixels, palette, metric, 0) == image_tally(pixels),
        image_tally(pixels).count == pixels.len(),
    decreases pixels.len(),
{
    if pixels.len() > 0 {
        lemma_single_cluster_takes_all(pixels.drop_last(), palette, metric);
        lemma_nearest_of_one(pixels.last(), palette, metric);
    }
}

/// With one centroid, a single iteration moves it to the mean of all pixels
/// of the image, wherever it started, and further iterations leave it there.
pub proof fn lemma_single_centroid_is_image_mean(
    pixels: Seq<Color>,
    centroids: Seq<Tally>,
    metric: Metric,
    n: nat,
)
    requires
        centroids.len() == 1,
        pixels.len() > 0,
        n >= 1,
    ensures
        refined_times(pixels, centroids, metric, n) == seq![image_tally(pixels).mean()],
    decreases n,
{
    let before = refined_times(pixels, centroids, metric, (n - 1) as nat);
    if n > 1 {
        lemma_single_centroid_is_image_mean(pixels, centroids, metric, (n - 1) as nat);
    }
    assert(before.len() == 1);
    lemma_single_cluster_takes_all(pixels, palette_of(before), metric);
    assert(refined(pixels, before, metric) =~= seq![image_tally(pixels).mean()]);
}

/// In an image of a single color, the cluster that the color is assigned to
/// holds every pixel, and every other cluster holds none.
proof fn lemma_uniform_cluster_tally(
    pixels: Seq<Color>,
    palette: Seq<Color>,
    metric: Metric,
    color: Color,
    j: int,
)
    requires
        forall|i: int| 0 <= i < pixels.len() ==> #[trigger] pixels[i] == color,
    ensures
        ({
            let t = cluster_tally(pixels, palette, metric, j);
            if nearest(color, palette, metric) == j {
                &&& t.count == pixels.len()
                &&& t.r == pixels.len() * color.r
                &&& t.g == pixels.len() * color.g
                &&& t.b == pixels.len() * color.b
            } else {
                t == Tally::zero()
            }
        }),
    decreases pixels.len(),
{
    if pixels.len() > 0 {
        let shorter = pixels.drop_last();
        assert forall|i: int| 0 <= i < shorter.len() implies #[trigger] shorter[i] == color by {
            assert(shorter[i] == pixels[i]);
        }
        lemma_uniform_cluster_tally(shorter, palette, metric, color, j);
        assert(pixels.last() == pixels[pixels.len() - 1]);
        let n = shorter.len() as int;
        assert((n + 1) * color.r == n * color.r + color.r && (n + 1) * color.g == n * color.g
            + color.g && (n + 1) * color.b == n * color.b + color.b) by (nonlinear_arith);
    }
}

/// In an image of a single color, one iteration gives that color to every
/// centroid that pixels are assigned to or that had the color already.
proof fn lemma_uniform_step(pixels: Seq<Color>, centroids: Seq<Tally>, metric: Metric, color: Color)
    requires
        pixels.len() > 0,
        forall|i: int| 0 <= i < pixels.len() ==> #[trigger] pixels[i] == color,
        forall|j: int|
            0 <= j < centroids.len() ==> j == nearest(color, palette_of(centroids), metric)
                || (#[trigger] centroids[j]).color() == color,
    ensures
        refined(pixels, centroids, metric) == uniform_set(centroids.len(), color),
{
    let palette = palette_of(centroids);
    assert forall|j: int| 0 <= j < centroids.len() implies refined(pixels, centroids, metric)[j]
        == Tally::seed(color) by {
        lemma_uniform_cluster_tally(pixels, palette, metric, color, j);
        let t = cluster_tally(pixels, palette, metric, j);
        if nearest(color, palette, metric) == j {
            let n = pixels.len() as int;
            assert((n * color.r) / n == color.r && (n * color.g) / n == color.g && (n * color.b)
                / n == color.b) by (nonlinear_arith)
                requires
                    n > 0,
            ;
        } else {
            assert(centroids[j].color() == color);
        }
    }
    assert(refined(pixels, centroids, metric) =~= uniform_set(centroids.len(), color));
}

/// In an image whose pixels all have the color `color`, every centroid has
/// that color after one iteration and after any number of further ones,
/// provided that each centroid either starts with the color, as every
/// centroid seeded from the image does, or is the one the color is assigned
/// to. A centroid of another color that receives no pixel keeps its color.
pub proof fn lemma_uniform_image_is_stable(
    pixels: Seq<Color>,
    centroids: Seq<Tally>,
    metric: Metric,
    color: Color,
    n: nat,
)
    requires
        pixels.len() > 0,
        forall|i: int| 0 <= i < pixels.len() ==> #[trigger] pixels[i] == color,
        forall|j: int|
            0 <= j < centroids.len() ==> j == nearest(color, palette_of(centroids), metric)
                || (#[trigger] centroids[j]).color() == color,
        n >= 1,
    ensures
        refined_times(pixels, centroids, metric, n) == uniform_set(centroids.len(), color),
    decreases n,
{
    if n == 1 {
        assert(refined_times(pixels, centroids, metric, 0) == centroids);
        lemma_uniform_step(pixels, centroids, metric, color);
    } else {
        lemma_uniform_image_is_stable(pixels, centroids, metric, color, (n - 1) as nat);
        let before = uniform_set(centroids.len(), color);
        assert forall|j: int| 0 <= j < before.len() implies (#[trigger] before[j]).color()
            == color by {
            lemma_seed_color(color);
        }
        lemma_uniform_step(pixels, before, metric, color);
    }
}

/// In an image whose pixels all have the color `color`, centroids that were
/// seeded from the image all have that color after one iteration and after
/// any number of further ones, however many they are.
pub proof fn lemma_uniform_image_from_seeds(
    pixels: Seq<Color>,
    first: Seq<Tally>,
    k: nat,
    metric: Metric,
    color: Color,
    n: nat,
)
    requires
        forall|i: int| 0 <= i < pixels.len() ==> #[trigger] pixels[i] == color,
        drawn_from(first, pixels, k),
        pixels.len() > 0,
        n >= 1,
    ensures
        refined_times(pixels, first, metric, n) == uniform_set(k, color),
{
    let picks = choose|picks: Seq<usize>|
        picks.len() == k && in_range(picks, pixels.len()) && first == #[trigger] seeded(
            pixels,
            picks,
        );
    assert forall|j: int| 0 <= j < first.len() implies (#[trigger] first[j]).color() == color by {
        assert(picks[j] < pixels.len());
        lemma_seed_color(pixels[picks[j] as int]);
    }
    lemma_uniform_image_is_stable(pixels, first, metric, color, n);
}

/// A pixel that lies at the same distance from two centroids is never
/// assigned to the later of the two.
pub proof fn lemma_equidistant_goes_to_lower_index(
    pixel: Color,
    centroids: Seq<Tally>,
    metric: Metric,
    i: int,
    j: int,
)
    requires
        0 <= i < j < centroids.len(),
        metric.measure(centroids[i].color(), pixel) == metric.measure(centroids[j].color(), pixel),
    ensures
        nearest(pixel, palette_of(centroids), metric) != j,
        nearest(pixel, palette_of(centroids), metric) <= i || metric.measure(
            palette_of(centroids)[nearest(pixel, palette_of(centroids), metric)],
            pixel,
        ) < metric.measure(centroids[i].color(), pixel),
{
    let palette = palette_of(centroids);
    lemma_nearest_is_nearest(pixel, palette, metric);
    let w = nearest(pixel, palette, metric);
    assert(palette[i] == centroids[i].color());
    assert(palette[j] == centroids[j].color());
    if w == j {
        assert(metric.measure(palette[i], pixel) > metric.measure(palette[j], pixel));
    }
    if w > i {
        assert(metric.measure(palette[i], pixel) > metric.measure(palette[w], pixel));
    }
}

} // verus!
