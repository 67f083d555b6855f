//! The assignment rule: a pixel belongs to the palette color at the least
//! distance from it, the lowest index winning a tie.

use crate::color::Color;
use crate::metric::Metric;
use crate::natural::Natural;
use vstd::prelude::*;

verus! {

/// Whether `j` is the cluster that `pixel` is assigned to: the index of a
/// palette color at the least distance from it, and the lowest such index.
pub open spec fn is_nearest(pixel: Color, palette: Seq<Color>, metric: Metric, j: int) -> bool {
    &&& 0 <= j < palette.len()
    &&& forall|i: int|
        0 <= i < palette.len() ==> metric.measure(#[trigger] palette[i], pixel) >= metric.measure(
            palette[j],
            pixel,
        )
    &&& forall|i: int|
        0 <= i < j ==> metric.measure(#[trigger] palette[i], pixel) > metric.measure(
            palette[j],
            pixel,
        )
}

/// The cluster that `pixel` is assigned to; 0 where the palette is empty.
pub open spec fn nearest(pixel: Color, palette: Seq<Color>, metric: Metric) -> int {
    if palette.len() == 0 {
        0
    } else {
        choose|j: int| is_nearest(pixel, palette, metric, j)
    }
}

/// Every pixel has a nearest color in a palette that is not empty.
pub proof fn lemma_nearest_exists(pixel: Color, palette: Seq<Color>, metric: Metric) -> (j: int)
    requires
        palette.len() > 0,
    ensures
        is_nearest(pixel, palette, metric, j),
    decreases palette.len(),
{
    if palette.len() == 1 {
        0
    } else {
        let shorter = palette.drop_last();
        let best = lemma_nearest_exists(pixel, shorter, metric);
        let last = palette.len() - 1;
        assert(forall|i: int| 0 <= i < shorter.len() ==> shorter[i] == palette[i]);
        if metric.measure(palette[last], pixel) < metric.measure(palette[best], pixel) {
            assert forall|i: int| 0 <= i < palette.len() implies metric.measure(
                #[trigger] palette[i],
                pixel,
            ) >= metric.measure(palette[last], pixel) by {
                if i < last {
                    assert(shorter[i] == palette[i]);
                }
            }
            assert forall|i: int| 0 <= i < last implies metric.measure(
                #[trigger] palette[i],
                pixel,
            ) > metric.measure(palette[last], pixel) by {
                assert(shorter[i] == palette[i]);
            }
            last
        } else {
            assert forall|i: int| 0 <= i < palette.len() implies metric.measure(
                #[trigger] palette[i],
                pixel,
            ) >= metric.measure(palette[best], pixel) by {
                if i < last {
                    assert(shorter[i] == palette[i]);
                }
            }
            assert forall|i: int| 0 <= i < best implies metric.measure(
                #[trigger] palette[i],
                pixel,
            ) > metric.measure(palette[best], pixel) by {
                assert(shorter[i] == palette[i]);
            }
            best
        }
    }
}

/// The nearest color is unique: `nearest` is the one index that `is_nearest`
/// holds of.
pub proof fn lemma_nearest_unique(pixel: Color, palette: Seq<Color>, metric: Metric, j: int)
    requires
        is_nearest(pixel, palette, metric, j),
    ensures
        nearest(pixel, palette, metric) == j,
{
    let n = nearest(pixel, palette, metric);
    assert(is_nearest(pixel, palette, metric, n));
    if n < j {
        assert(metric.measure(palette[n], pixel) > metric.measure(palette[j], pixel));
        assert(metric.measure(palette[j], pixel) >= metric.measure(palette[n], pixel));
    } else if j < n {
        assert(metric.measure(palette[j], pixel) > metric.measure(palette[n], pixel));
        assert(metric.measure(palette[n], pixel) >= metric.measure(palette[j], pixel));
    }
}

/// In a palette that is not empty, `nearest` names a color at the least
/// distance, and no color before it is as near.
pub proof fn lemma_nearest_is_nearest(pixel: Color, palette: Seq<Color>, metric: Metric)
    requires
        palette.len() > 0,
    ensures
        is_nearest(pixel, palette, metric, nearest(pixel, palette, metric)),
{
    let j = lemma_nearest_exists(pixel, palette, metric);
}

/// Ties go to the lower index: a color is never chosen when an earlier color
/// is as near to the pixel or nearer.
pub proof fn lemma_ties_go_to_lower_index(
    pixel: Color,
    palette: Seq<Color>,
    metric: Metric,
    i: int,
    j: int,
)
    requires
        0 <= i < j < palette.len(),
        metric.measure(palette[i], pixel) <= metric.measure(palette[j], pixel),
    ensures
        nearest(pixel, palette, metric) != j,
{
    lemma_nearest_is_nearest(pixel, palette, metric);
    if nearest(pixel, palette, metric) == j {
        assert(metric.measure(palette[i], pixel) > metric.measure(palette[j], pixel));
    }
}

/// With a single color every pixel is assigned to it.
pub proof fn lemma_nearest_of_one(pixel: Color, palette: Seq<Color>, metric: Metric)
    requires
        palette.len() == 1,
    ensures
        nearest(pixel, palette, metric) == 0,
{
    lemma_nearest_is_nearest(pixel, palette, metric);
}

/// Finds the cluster that a pixel is assigned to: the palette color at the
/// least distance, the lowest index winning a tie. An empty palette gives 0.
pub fn nearest_centroid(pixel: &Color, palette: &Vec<Color>, metric: Metric) -> (j: usize)
    ensures
        j == nearest(*pixel, palette@, metric),
        palette.len() > 0 ==> is_nearest(*pixel, palette@, metric, j as int),
{
    if palette.len() == 0 {
        return 0;
    }
    let best = if metric.is_fast() {
        nearest_fast(pixel, palette, metric)
    } else {
        nearest_wide(pixel, palette, metric)
    };
    proof {
        lemma_nearest_unique(*pixel, palette@, metric, best as int);
    }
    best
}

/// The search for the nearest color with scores of 128 bits.
fn nearest_fast(pixel: &Color, palette: &Vec<Color>, metric: Metric) -> (best: usize)
    requires
        palette.len() > 0,
        metric.fast(),
    ensures
        is_nearest(*pixel, palette@, metric, best as int),
{
    let mut best: usize = 0;
    let mut least: u128 = metric.fast_score(&palette[0], pixel);
    let mut i: usize = 1;
    while i < palette.len()
        invariant
            metric.fast(),
            1 <= i <= palette.len(),
            best < i,
            least == metric.measure(palette@[best as int], *pixel),
            forall|h: int|
                0 <= h < i ==> metric.measure(#[trigger] palette@[h], *pixel) >= metric.measure(
                    palette@[best as int],
                    *pixel,
                ),
            forall|h: int|
                0 <= h < best ==> metric.measure(#[trigger] palette@[h], *pixel) > metric.measure(
                    palette@[best as int],
                    *pixel,
                ),
        decreases palette.len() - i,
    {
        let d = metric.fast_score(&palette[i], pixel);
        if d < least {
            least = d;
            best = i;
        }
        i = i + 1;
    }
    best
}

/// The search for the nearest color with scores of any size.
fn nearest_wide(pixel: &Color, palette: &Vec<Color>, metric: Metric) -> (best: usize)
    requires
        palette.len() > 0,
    ensures
        is_nearest(*pixel, palette@, metric, best as int),
{
    let mut best: usize = 0;
    let mut least: Natural = metric.score(&palette[0], pixel);
    let mut i: usize = 1;
    while i < palette.len()
        invariant
            1 <= i <= palette.len(),
            best < i,
            least@ == metric.measure(palette@[best as int], *pixel),
            forall|h: int|
                0 <= h < i ==> metric.measure(#[trigger] palette@[h], *pixel) >= metric.measure(
                    palette@[best as int],
                    *pixel,
                ),
            forall|h: int|
                0 <= h < best ==> metric.measure(#[trigger] palette@[h], *pixel) > metric.measure(
                    palette@[best as int],
                    *pixel,
                ),
        decreases palette.len() - i,
    {
        let d = metric.score(&palette[i], pixel);
        if d.less_than(&least) {
            least = d;
            best = i;
        }
        i = i + 1;
    }
    best
}

} // verus!
