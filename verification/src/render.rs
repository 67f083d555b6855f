//! Rendering the final centroids: the recolored image or the palette strip.

use crate::accumulate::tallies;
use crate::assign::{lemma_nearest_is_nearest, nearest, nearest_centroid};
use crate::bucket::{Bucket, Tally};
use crate::canvas::{fits_a_buffer, Canvas, Picture};
use crate::cluster::{cluster, drawn_from, is_centroid_set, palette, palette_of, refined_times};
use crate::color::Color;
use crate::error::Error;
use crate::metric::Metric;
use crate::prompts::Mode;
use rand::rngs::StdRng;
use vstd::prelude::*;

verus! {

/// The image with every pixel replaced by the palette color nearest to it,
/// quantized to 8 bits.
pub open spec fn recolored(pixels: Seq<Color>, palette: Seq<Color>, metric: Metric) -> Seq<
    (u8, u8, u8),
> {
    Seq::new(pixels.len(), |i: int| palette[nearest(pixels[i], palette, metric)].rgb8())
}

/// The palette colors quantized to 8 bits, in palette order.
pub open spec fn swatches(palette: Seq<Color>) -> Seq<(u8, u8, u8)> {
    Seq::new(palette.len(), |j: int| palette[j].rgb8())
}

/// What rendering gives. It is refused with `InvalidParameter` where the
/// centroid set is empty or holds a centroid without pixels, or the metric
/// is not defined. In image mode it is refused with `EmptyImage` where the
/// image has no pixel, and else with `DimensionMismatch` where it has
/// another number of pixels than `width * height` or more than fit in a
/// buffer; the picture is the recolored image. In palette mode it is refused
/// with `DimensionMismatch` where the centroids outnumber what a width or a
/// buffer can hold; the picture is one row with one swatch of one pixel for
/// each centroid.
pub open spec fn rendered(
    size: (u32, u32),
    pixels: Seq<Color>,
    centroids: Seq<Tally>,
    metric: Metric,
    mode: Mode,
) -> Result<Picture, Error> {
    if centroids.len() == 0 || !metric.valid() || !is_centroid_set(centroids) {
        Err(Error::InvalidParameter)
    } else {
        match mode {
            Mode::Image => {
                if pixels.len() == 0 {
                    Err(Error::EmptyImage)
                } else if size.0 * size.1 != pixels.len() || !fits_a_buffer(pixels.len()) {
                    Err(Error::DimensionMismatch)
                } else {
                    Ok(
                        Picture {
                            width: size.0 as nat,
                            height: size.1 as nat,
                            pixels: recolored(pixels, palette_of(centroids), metric),
                        },
                    )
                }
            },
            Mode::Palette => {
                if centroids.len() > u32::MAX || !fits_a_buffer(centroids.len()) {
                    Err(Error::DimensionMismatch)
                } else {
                    Ok(
                        Picture {
                            width: centroids.len(),
                            height: 1,
                            pixels: swatches(palette_of(centroids)),
                        },
                    )
                }
            },
        }
    }
}

/// The mode that a one-letter flag names: `n` for the image, `y` for the
/// palette.
pub open spec fn flag_mode(flag: Seq<char>) -> Option<Mode> {
    if flag == seq!['n'] {
        Some(Mode::Image)
    } else if flag == seq!['y'] {
        Some(Mode::Palette)
    } else {
        None
    }
}

/// The 8-bit color that the pixel at position `idx` is rendered with: the
/// palette color nearest to it.
pub fn nearest_color(idx: usize, data: &Vec<Color>, colors: &Vec<Color>, metric: Metric) -> (rgb: (
    u8,
    u8,
    u8,
))
    requires
        idx < data.len(),
        colors.len() > 0,
    ensures
        rgb == colors@[nearest(data@[idx as int], colors@, metric)].rgb8(),
{
    let j = nearest_centroid(&data[idx], colors, metric);
    colors[j].to_rgb8()
}

/// The 8-bit colors of the image once every pixel is replaced by the palette
/// color nearest to it.
pub fn recolor(data: &Vec<Color>, colors: &Vec<Color>, metric: Metric) -> (pixels: Vec<
    (u8, u8, u8),
>)
    requires
        colors.len() > 0,
    ensures
        pixels@ == recolored(data@, colors@, metric),
{
    let mut pixels: Vec<(u8, u8, u8)> = Vec::new();
    let mut idx: usize = 0;
    while idx < data.len()
        invariant
            idx <= data.len(),
            colors.len() > 0,
            pixels.len() == idx,
            forall|i: int|
                0 <= i < idx ==> #[trigger] pixels@[i] == colors@[nearest(
                    data@[i],
                    colors@,
                    metric,
                )].rgb8(),
        decreases data.len() - idx,
    {
        pixels.push(nearest_color(idx, data, colors, metric));
        idx = idx + 1;
    }
    assert(pixels@ =~= recolored(data@, colors@, metric));
    pixels
}

/// The 8-bit colors of a palette, in palette order.
pub fn swatch_row(colors: &Vec<Color>) -> (pixels: Vec<(u8, u8, u8)>)
    ensures
        pixels@ == swatches(colors@),
{
    let mut pixels: Vec<(u8, u8, u8)> = Vec::new();
    let mut j: usize = 0;
    while j < colors.len()
        invariant
            j <= colors.len(),
            pixels.len() == j,
            forall|i: int| 0 <= i < j ==> #[trigger] pixels@[i] == colors@[i].rgb8(),
        decreases colors.len() - j,
    {
        pixels.push(colors[j].to_rgb8());
        j = j + 1;
    }
    assert(pixels@ =~= swatches(colors@));
    pixels
}

/// Renders the final centroids: in image mode the image recolored with the
/// nearest centroid colors, in palette mode one swatch for each centroid.
/// [`rendered`] says what comes out and when rendering is refused.
pub fn render(
    size: (u32, u32),
    data: &Vec<Color>,
    buckets: &Vec<Bucket>,
    metric: Metric,
    mode: Mode,
) -> (out: Result<Canvas, Error>)
    ensures
        match out {
            Ok(canvas) => rendered(size, data@, tallies(buckets@), metric, mode) == Ok::<
                Picture,
                Error,
            >(canvas@),
            Err(e) => rendered(size, data@, tallies(buckets@), metric, mode) == Err::<
                Picture,
                Error,
            >(e),
        },
{
    if buckets.len() == 0 || !metric.is_valid() {
        return Err(Error::InvalidParameter);
    }
    let colors = match palette(buckets) {
        Some(colors) => colors,
        None => {
            return Err(Error::InvalidParameter);
        },
    };
    match mode {
        Mode::Image => {
            if data.len() == 0 {
                return Err(Error::EmptyImage);
            }
            let pixels = recolor(data, &colors, metric);
            Canvas::from_pixels(size.0, size.1, &pixels)
        },
        Mode::Palette => {
            if colors.len() > u32::MAX as usize {
                return Err(Error::DimensionMismatch);
            }
            let pixels = swatch_row(&colors);
            assert(colors.len() * 1 == colors.len()) by (nonlinear_arith);
            Canvas::from_pixels(colors.len() as u32, 1, &pixels)
        },
    }
}

/// Renders with the Minkowski distance of exponent `p` and the mode that a
/// one-letter flag names. A flag that names no mode is refused with
/// `InvalidParameter`; else the outcome is that of [`render`].
pub fn create_img(
    size: (u32, u32),
    data: &Vec<Color>,
    centroids: &Vec<Bucket>,
    p: u32,
    mode: &str,
) -> (out: Result<Canvas, Error>)
    ensures
        flag_mode(mode@) is None ==> out is Err && out->Err_0 == Error::InvalidParameter,
        flag_mode(mode@) is Some ==> match out {
            Ok(canvas) => rendered(
                size,
                data@,
                tallies(centroids@),
                Metric::Minkowski(p),
                flag_mode(mode@)->0,
            ) == Ok::<Picture, Error>(canvas@),
            Err(e) => rendered(
                size,
                data@,
                tallies(centroids@),
                Metric::Minkowski(p),
                flag_mode(mode@)->0,
            ) == Err::<Picture, Error>(e),
        },
{
    if mode.unicode_len() != 1 {
        return Err(Error::InvalidParameter);
    }
    let flag = mode.get_char(0);
    let mode = if flag == 'n' {
        assert(mode@ =~= seq!['n']);
        Mode::Image
    } else if flag == 'y' {
        assert(mode@ =~= seq!['y']);
        Mode::Palette
    } else {
        assert(mode@ != seq!['n'] && mode@ != seq!['y']) by {
            assert(seq!['n'][0] == 'n' && seq!['y'][0] == 'y');
        }
        return Err(Error::InvalidParameter);
    };
    render(size, data, centroids, Metric::Minkowski(p), mode)
}

/// A picture that comes out of rendering holds one color for each of its
/// `width * height` positions.
pub proof fn lemma_rendered_fills_the_picture(
    size: (u32, u32),
    pixels: Seq<Color>,
    centroids: Seq<Tally>,
    metric: Metric,
    mode: Mode,
)
    requires
        rendered(size, pixels, centroids, metric, mode) is Ok,
    ensures
        ({
            let picture = rendered(size, pixels, centroids, metric, mode)->Ok_0;
            picture.pixels.len() == picture.width * picture.height
        }),
{
    let picture = rendered(size, pixels, centroids, metric, mode)->Ok_0;
    match mode {
        Mode::Image => {},
        Mode::Palette => {
            assert(picture.width * 1 == picture.width) by (nonlinear_arith);
        },
    }
}

/// Every color of a recolored image is one of the palette's swatches.
pub proof fn lemma_recolored_uses_palette(
    pixels: Seq<Color>,
    palette: Seq<Color>,
    metric: Metric,
    i: int,
)
    requires
        palette.len() > 0,
        0 <= i < pixels.len(),
    ensures
        swatches(palette).contains(recolored(pixels, palette, metric)[i]),
{
    lemma_nearest_is_nearest(pixels[i], palette, metric);
    let j = nearest(pixels[i], palette, metric);
    assert(swatches(palette)[j] == recolored(pixels, palette, metric)[i]);
}

/// A palette whose colors differ after quantization is rendered with as many
/// distinct colors as it has entries.
pub proof fn lemma_distinct_swatches(palette: Seq<Color>)
    requires
        forall|i: int, j: int|
            0 <= i < j < palette.len() ==> (#[trigger] palette[i]).rgb8() != (
            #[trigger] palette[j]).rgb8(),
    ensures
        swatches(palette).no_duplicates(),
        swatches(palette).to_set().len() == palette.len(),
{
    let row = swatches(palette);
    assert forall|i: int, j: int| 0 <= i < row.len() && 0 <= j < row.len() && i != j implies row[i]
        != row[j] by {
        if i < j {
            assert(palette[i].rgb8() != palette[j].rgb8());
        } else {
            assert(palette[j].rgb8() != palette[i].rgb8());
        }
    }
    row.unique_seq_to_set();
}

/// A whole run: `k` centroids are seeded from randomly sampled pixels,
/// refined `iterations` times, and rendered in the given mode.
///
/// The run is refused with `InvalidParameter` where `k` is zero or the metric
/// is not defined, and else with `EmptyImage` where the image has no pixel.
/// Otherwise the outcome is what [`rendered`] gives for the centroid set that
/// `iterations` passes make of some set seeded from the image.
pub fn quantize(
    size: (u32, u32),
    data: &Vec<Color>,
    k: usize,
    iterations: usize,
    metric: Metric,
    mode: Mode,
    rng: &mut StdRng,
) -> (out: Result<Canvas, Error>)
    ensures
        k == 0 || !metric.valid() ==> out is Err && out->Err_0 == Error::InvalidParameter,
        k > 0 && metric.valid() && data.len() == 0 ==> out is Err && out->Err_0
            == Error::EmptyImage,
        k > 0 && metric.valid() && data.len() > 0 ==> exists|first: Seq<Tally>|
            #[trigger] drawn_from(first, data@, k as nat) && match out {
                Ok(canvas) => rendered(
                    size,
                    data@,
                    refined_times(data@, first, metric, iterations as nat),
                    metric,
                    mode,
                ) == Ok::<Picture, Error>(canvas@),
                Err(e) => rendered(
                    size,
                    data@,
                    refined_times(data@, first, metric, iterations as nat),
                    metric,
                    mode,
                ) == Err::<Picture, Error>(e),
            },
{
    match cluster(data, k, iterations, metric, rng) {
        Ok(centroids) => render(size, data, &centroids, metric, mode),
        Err(e) => Err(e),
    }
}

} // verus!
