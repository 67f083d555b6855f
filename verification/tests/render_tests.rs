use kmeans_quantize::bucket::Bucket;
use kmeans_quantize::canvas::{pick, Canvas};
use kmeans_quantize::error::Error;
use kmeans_quantize::metric::Metric;
use kmeans_quantize::color::Color;
use kmeans_quantize::prompts::Mode;
use kmeans_quantize::render::{create_img, nearest_color, quantize, recolor, render, swatch_row};
use rand::rngs::StdRng;
use rand::SeedableRng;
use std::collections::HashSet;

/// The dimensions of a canvas and its colors, row by row.
fn shown(canvas: Canvas) -> ((u32, u32), Vec<(u8, u8, u8)>) {
    let size = canvas.dimensions();
    let raw = canvas.into_raw();
    assert_eq!(raw.len() % 3, 0);
    (size, raw.chunks(3).map(|c| (c[0], c[1], c[2])).collect())
}

fn centroids() -> Vec<Bucket> {
    vec![
        Bucket::new(&Color::from_rgb8(10, 10, 10)),
        Bucket::new(&Color::from_rgb8(200, 0, 0)),
        Bucket::new(&Color::from_rgb8(0, 0, 250)),
    ]
}

fn image() -> Vec<Color> {
    vec![
        Color::from_rgb8(0, 0, 0),
        Color::from_rgb8(255, 10, 10),
        Color::from_rgb8(0, 10, 200),
        Color::from_rgb8(20, 20, 20),
        Color::from_rgb8(180, 0, 30),
        Color::from_rgb8(10, 10, 10),
    ]
}

#[test]
fn image_mode_recolors_every_pixel_with_its_nearest_centroid() {
    let canvas = render((3, 2), &image(), &centroids(), Metric::Minkowski(2), Mode::Image).unwrap();
    let (size, pixels) = shown(canvas);
    assert_eq!(size, (3, 2));
    assert_eq!(
        pixels,
        vec![(10, 10, 10), (200, 0, 0), (0, 0, 250), (10, 10, 10), (200, 0, 0), (10, 10, 10)]
    );
}

#[test]
fn image_mode_quantizes_to_the_nearest_sample() {
    // a centroid whose average lies between two 8-bit samples
    let set = vec![Bucket::new(&Color::new(385, 386, 65407))];
    let canvas = render((1, 1), &vec![Color::new(0, 0, 0)], &set, Metric::SquaredEuclidean, Mode::Image)
        .unwrap();
    assert_eq!(shown(canvas), ((1, 1), vec![(1, 2, 255)]));
}

#[test]
fn image_mode_breaks_ties_towards_the_lower_index() {
    let set = vec![Bucket::new(&Color::new(100, 100, 100)), Bucket::new(&Color::new(300, 300, 300))];
    let data = vec![Color::new(200, 200, 200)];
    let canvas = render((1, 1), &data, &set, Metric::SquaredEuclidean, Mode::Image).unwrap();
    assert_eq!(shown(canvas).1, vec![(0, 0, 0)]);
    assert_eq!(nearest_color(0, &data, &vec![Color::new(100, 100, 100), Color::new(300, 300, 300)], Metric::SquaredEuclidean), (0, 0, 0));
}

#[test]
fn palette_mode_shows_one_swatch_for_each_centroid() {
    let canvas = render((3, 2), &image(), &centroids(), Metric::Minkowski(2), Mode::Palette).unwrap();
    let (size, pixels) = shown(canvas);
    assert_eq!(size, (3, 1));
    assert_eq!(pixels, vec![(10, 10, 10), (200, 0, 0), (0, 0, 250)]);
    let distinct: HashSet<(u8, u8, u8)> = pixels.iter().copied().collect();
    assert_eq!(distinct.len(), 3);
}

#[test]
fn palette_mode_needs_no_image() {
    let canvas = render((0, 0), &Vec::new(), &centroids(), Metric::SquaredEuclidean, Mode::Palette).unwrap();
    assert_eq!(shown(canvas).1.len(), 3);
}

#[test]
fn image_mode_uses_only_palette_colors() {
    let data: Vec<Color> = (0..600u32)
        .map(|i| Color::new((i * 109) as u16, (i * 7) as u16, (i * 1013 % 65536) as u16))
        .collect();
    let canvas = render((30, 20), &data, &centroids(), Metric::Minkowski(3), Mode::Image).unwrap();
    let swatches = render((0, 0), &data, &centroids(), Metric::Minkowski(3), Mode::Palette).unwrap();
    let (size, pixels) = shown(canvas);
    let (_, swatches) = shown(swatches);
    assert_eq!(size, (30, 20));
    assert_eq!(pixels.len(), 600);
    assert!(pixels.iter().all(|c| swatches.contains(c)));
}

#[test]
fn render_refuses_dimensions_that_do_not_match() {
    for size in [(2, 2), (6, 2), (0, 0), (7, 1)] {
        assert!(matches!(
            render(size, &image(), &centroids(), Metric::SquaredEuclidean, Mode::Image),
            Err(Error::DimensionMismatch)
        ));
    }
    assert!(render((6, 1), &image(), &centroids(), Metric::SquaredEuclidean, Mode::Image).is_ok());
    assert!(render((1, 6), &image(), &centroids(), Metric::SquaredEuclidean, Mode::Image).is_ok());
}

#[test]
fn render_refuses_dimensions_whose_product_wraps_around() {
    // 65536 * 65536 is 2^32, which a 32-bit product would take for 0
    assert!(matches!(
        render((65536, 65536), &image(), &centroids(), Metric::SquaredEuclidean, Mode::Image),
        Err(Error::DimensionMismatch)
    ));
}

#[test]
fn render_refuses_an_empty_image_in_image_mode() {
    assert!(matches!(
        render((0, 0), &Vec::new(), &centroids(), Metric::SquaredEuclidean, Mode::Image),
        Err(Error::EmptyImage)
    ));
}

#[test]
fn render_refuses_bad_parameters() {
    for mode in [Mode::Image, Mode::Palette] {
        assert!(matches!(
            render((3, 2), &image(), &Vec::new(), Metric::SquaredEuclidean, mode),
            Err(Error::InvalidParameter)
        ));
        assert!(matches!(
            render((3, 2), &image(), &centroids(), Metric::Minkowski(0), mode),
            Err(Error::InvalidParameter)
        ));
        assert!(matches!(
            render((3, 2), &image(), &vec![Bucket::empty()], Metric::SquaredEuclidean, mode),
            Err(Error::InvalidParameter)
        ));
    }
}

#[test]
fn create_img_reads_the_mode_flag() {
    let as_image = create_img((3, 2), &image(), &centroids(), 2, "n").unwrap();
    let expected = render((3, 2), &image(), &centroids(), Metric::Minkowski(2), Mode::Image).unwrap();
    assert_eq!(shown(as_image), shown(expected));
    let as_palette = create_img((3, 2), &image(), &centroids(), 2, "y").unwrap();
    assert_eq!(shown(as_palette), ((3, 1), vec![(10, 10, 10), (200, 0, 0), (0, 0, 250)]));
}

#[test]
fn create_img_refuses_an_unknown_mode() {
    for flag in ["", "x", "no", "yes", "N", "Y", " n", "ny"] {
        assert!(matches!(
            create_img((3, 2), &image(), &centroids(), 2, flag),
            Err(Error::InvalidParameter)
        ));
    }
}

#[test]
fn create_img_refuses_exponent_zero() {
    assert!(matches!(
        create_img((3, 2), &image(), &centroids(), 0, "n"),
        Err(Error::InvalidParameter)
    ));
}

#[test]
fn quantize_renders_the_clustered_image() {
    let data: Vec<Color> = (0..400u32)
        .map(|i| if i % 2 == 0 { Color::from_rgb8(0, 0, 0) } else { Color::from_rgb8(255, 255, 255) })
        .collect();
    let mut rng = StdRng::seed_from_u64(3);
    let canvas = quantize((20, 20), &data, 2, 3, Metric::Minkowski(2), Mode::Image, &mut rng).unwrap();
    let (size, pixels) = shown(canvas);
    assert_eq!(size, (20, 20));
    assert_eq!(pixels.len(), 400);
    assert!(pixels.iter().all(|c| *c == (0, 0, 0) || *c == (255, 255, 255)));
    let mut rng = StdRng::seed_from_u64(3);
    let strip = quantize((20, 20), &data, 4, 0, Metric::Minkowski(2), Mode::Palette, &mut rng).unwrap();
    assert_eq!(strip.dimensions(), (4, 1));
}

#[test]
fn quantize_refusals() {
    let data = image();
    let mut rng = StdRng::seed_from_u64(3);
    assert!(matches!(
        quantize((3, 2), &data, 0, 1, Metric::SquaredEuclidean, Mode::Image, &mut rng),
        Err(Error::InvalidParameter)
    ));
    assert!(matches!(
        quantize((3, 2), &data, 2, 1, Metric::Minkowski(0), Mode::Palette, &mut rng),
        Err(Error::InvalidParameter)
    ));
    assert!(matches!(
        quantize((3, 2), &Vec::new(), 2, 1, Metric::SquaredEuclidean, Mode::Image, &mut rng),
        Err(Error::EmptyImage)
    ));
    assert!(matches!(
        quantize((4, 2), &data, 2, 1, Metric::SquaredEuclidean, Mode::Image, &mut rng),
        Err(Error::DimensionMismatch)
    ));
}

#[test]
fn recolor_gives_the_nearest_palette_color_of_every_pixel() {
    let palette = vec![Color::from_rgb8(10, 10, 10), Color::from_rgb8(200, 0, 0)];
    let data = vec![Color::from_rgb8(0, 0, 0), Color::from_rgb8(255, 10, 10), Color::from_rgb8(9, 9, 9)];
    assert_eq!(
        recolor(&data, &palette, Metric::SquaredEuclidean),
        vec![(10, 10, 10), (200, 0, 0), (10, 10, 10)]
    );
    assert_eq!(recolor(&Vec::new(), &palette, Metric::SquaredEuclidean), Vec::new());
}

#[test]
fn swatch_row_quantizes_the_palette_in_order() {
    let palette = vec![Color::new(385, 386, 65407), Color::from_rgb8(1, 2, 3)];
    assert_eq!(swatch_row(&palette), vec![(1, 2, 255), (1, 2, 3)]);
    assert_eq!(swatch_row(&Vec::new()), Vec::new());
}

#[test]
fn canvas_keeps_rows_and_columns_apart() {
    // two rows of three pixels, every sample different
    let pixels: Vec<(u8, u8, u8)> = (0..6u8).map(|i| (10 * i, 10 * i + 1, 10 * i + 2)).collect();
    let canvas = Canvas::from_pixels(3, 2, &pixels).unwrap();
    assert_eq!(canvas.dimensions(), (3, 2));
    assert_eq!(
        canvas.into_raw(),
        vec![0, 1, 2, 10, 11, 12, 20, 21, 22, 30, 31, 32, 40, 41, 42, 50, 51, 52]
    );
    let tall = Canvas::from_pixels(2, 3, &pixels).unwrap();
    assert_eq!(tall.dimensions(), (2, 3));
    assert_eq!(shown(tall).1, pixels);
}

#[test]
fn canvas_of_no_pixels() {
    let canvas = Canvas::from_pixels(0, 7, &Vec::new()).unwrap();
    assert_eq!(canvas.dimensions(), (0, 7));
    assert_eq!(canvas.into_raw(), Vec::<u8>::new());
}

#[test]
fn canvas_refuses_colors_that_do_not_fill_it() {
    let pixels = vec![(1, 2, 3); 6];
    for (width, height) in [(3, 3), (2, 2), (6, 0), (0, 0), (65536, 65536)] {
        assert!(matches!(
            Canvas::from_pixels(width, height, &pixels),
            Err(Error::DimensionMismatch)
        ));
    }
}

#[test]
fn pick_reads_row_major_positions() {
    let pixels: Vec<(u8, u8, u8)> = (0..6u8).map(|i| (i, i + 100, i + 200)).collect();
    assert_eq!(pick(&pixels, 0, 0, 3).0, [0, 100, 200]);
    assert_eq!(pick(&pixels, 2, 0, 3).0, [2, 102, 202]);
    assert_eq!(pick(&pixels, 0, 1, 3).0, [3, 103, 203]);
    assert_eq!(pick(&pixels, 2, 1, 3).0, [5, 105, 205]);
    assert_eq!(pick(&pixels, 1, 2, 2).0, [5, 105, 205]);
}
