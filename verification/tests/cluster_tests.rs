use kmeans_quantize::accumulate::accumulate;
use kmeans_quantize::bucket::Bucket;
use kmeans_quantize::cluster::{cluster, init_buckets, init_centroids, iterate, palette, refine};
use kmeans_quantize::error::Error;
use kmeans_quantize::metric::Metric;
use kmeans_quantize::color::Color;
use rand::rngs::StdRng;
use rand::SeedableRng;

const BLACK: Color = Color { r: 0, g: 0, b: 0 };
const WHITE: Color = Color { r: 65535, g: 65535, b: 65535 };
const GRAY: Color = Color { r: 32768, g: 32768, b: 32768 };

fn colors(set: &[Bucket]) -> Vec<Color> {
    set.iter().map(|b| b.to_rgb()).collect()
}

fn seeds(pixels: &[Color]) -> Vec<Bucket> {
    pixels.iter().map(Bucket::new).collect()
}

fn sample_image() -> Vec<Color> {
    (0..997usize)
        .map(|i| {
            Color::new(
                ((i * 7919) % 65536) as u16,
                ((i * 104729) % 65536) as u16,
                ((i * 31337) % 65536) as u16,
            )
        })
        .collect()
}

#[test]
fn black_and_white_stay_apart() {
    let image = vec![BLACK, WHITE];
    let next = iterate(&image, seeds(&[BLACK, WHITE]), 2, Metric::Minkowski(2)).unwrap();
    assert_eq!(colors(&next), vec![BLACK, WHITE]);
    let next = iterate(&image, seeds(&[WHITE, BLACK]), 2, Metric::Minkowski(2)).unwrap();
    assert_eq!(colors(&next), vec![WHITE, BLACK]);
    assert!(next.iter().all(|b| b.num_pixels() == 1));
}

#[test]
fn black_and_white_from_sampled_centroids() {
    // when the two pixels drawn differ, the centroids stay at black and white,
    // in the order in which they were drawn; when the same pixel is drawn
    // twice, the first centroid takes both pixels and the second stays put
    let image = vec![BLACK, WHITE];
    let mut distinct_draws = 0;
    for seed in 0..20 {
        let mut rng = StdRng::seed_from_u64(seed);
        let first = init_centroids(&image, 2, &mut rng).unwrap();
        let start = colors(&first);
        let next = iterate(&image, first, 2, Metric::Minkowski(2)).unwrap();
        let after = colors(&next);
        if start[0] != start[1] {
            distinct_draws += 1;
            assert_eq!(after, start);
            assert!(after.contains(&BLACK) && after.contains(&WHITE));
        } else {
            assert_eq!(after, vec![Color::new(32767, 32767, 32767), start[1]]);
        }
    }
    assert!(distinct_draws > 0);
}

#[test]
fn single_gray_pixel_is_a_fixed_point() {
    let image = vec![GRAY];
    for iterations in [0usize, 1, 2, 10] {
        let last = refine(&image, seeds(&[GRAY]), 1, iterations, Metric::Minkowski(2)).unwrap();
        assert_eq!(colors(&last), vec![GRAY]);
        assert_eq!(last[0].num_pixels(), 1);
    }
    // also from a centroid that starts elsewhere
    let last = refine(&image, seeds(&[WHITE]), 1, 3, Metric::SquaredEuclidean).unwrap();
    assert_eq!(colors(&last), vec![GRAY]);
}

#[test]
fn one_centroid_moves_to_the_mean_of_the_image() {
    let image = vec![Color::new(0, 10, 20), Color::new(30, 40, 50), Color::new(60, 71, 83)];
    // sums 90, 121, 153 over 3 pixels
    let mean = Color::new(30, 40, 51);
    for start in [BLACK, WHITE, Color::new(30, 40, 50)] {
        let next = iterate(&image, seeds(&[start]), 1, Metric::Minkowski(2)).unwrap();
        assert_eq!(colors(&next), vec![mean]);
        let later = refine(&image, seeds(&[start]), 1, 7, Metric::Minkowski(2)).unwrap();
        assert_eq!(colors(&later), vec![mean]);
    }
}

#[test]
fn uniform_image_pulls_every_sampled_centroid_to_its_color() {
    let color = Color::new(1234, 40000, 9);
    let image = vec![color; 50];
    for k in [1usize, 2, 5] {
        for iterations in [1usize, 2, 6] {
            let mut rng = StdRng::seed_from_u64(k as u64 * 100 + iterations as u64);
            let last = cluster(&image, k, iterations, Metric::Minkowski(2), &mut rng).unwrap();
            assert_eq!(colors(&last), vec![color; k]);
        }
    }
}

#[test]
fn uniform_image_leaves_a_distant_idle_centroid_where_it_was() {
    // all pixels go to the second centroid; the first receives none and
    // keeps its color
    let image = vec![BLACK; 9];
    let start = seeds(&[WHITE, Color::new(30000, 30000, 30000)]);
    let next = iterate(&image, start, 2, Metric::SquaredEuclidean).unwrap();
    assert_eq!(colors(&next), vec![WHITE, BLACK]);
}

#[test]
fn centroid_without_pixels_keeps_its_previous_average() {
    let image = vec![Color::new(100, 100, 100), Color::new(300, 300, 300)];
    // a bucket of two pixels whose average is (60000, 60000, 60000)
    let far = Bucket::new(&Color::new(59999, 60000, 60001)).add_pixel(&Color::new(60001, 60000, 59999));
    let start = vec![Bucket::new(&Color::new(150, 150, 150)), far];
    let next = iterate(&image, start, 2, Metric::SquaredEuclidean).unwrap();
    assert_eq!(colors(&next), vec![Color::new(200, 200, 200), Color::new(60000, 60000, 60000)]);
    assert_eq!(next[1].num_pixels(), 1);
}

#[test]
fn averages_lie_within_the_range_of_their_pixels() {
    let image = sample_image();
    let start = seeds(&[image[0], image[100], image[500], image[900]]);
    let palette_before = palette(&start).unwrap();
    let sums = accumulate(&image, &palette_before, Metric::SquaredEuclidean);
    let next = iterate(&image, start, 4, Metric::SquaredEuclidean).unwrap();
    for j in 0..4 {
        let members: Vec<&Color> = image
            .iter()
            .filter(|p| {
                kmeans_quantize::assign::nearest_centroid(p, &palette_before, Metric::SquaredEuclidean) == j
            })
            .collect();
        assert_eq!(members.len() as u64, sums[j].num_pixels());
        if members.is_empty() {
            continue;
        }
        let c = next[j].to_rgb();
        assert!(members.iter().map(|p| p.r).min().unwrap() <= c.r);
        assert!(members.iter().map(|p| p.r).max().unwrap() >= c.r);
        assert!(members.iter().map(|p| p.g).min().unwrap() <= c.g);
        assert!(members.iter().map(|p| p.g).max().unwrap() >= c.g);
        assert!(members.iter().map(|p| p.b).min().unwrap() <= c.b);
        assert!(members.iter().map(|p| p.b).max().unwrap() >= c.b);
    }
}

#[test]
fn iterate_is_the_average_of_the_accumulated_sums() {
    let image = sample_image();
    let start = seeds(&[image[3], image[33], image[333]]);
    let palette_before = palette(&start).unwrap();
    let sums = accumulate(&image, &palette_before, Metric::Minkowski(1));
    let next = iterate(&image, start, 3, Metric::Minkowski(1)).unwrap();
    for j in 0..3 {
        assert!(sums[j].num_pixels() > 0);
        let (r, g, b) = sums[j].sums();
        let n = sums[j].num_pixels() as u128;
        assert_eq!(next[j].to_rgb(), Color::new((r / n) as u16, (g / n) as u16, (b / n) as u16));
        assert_eq!(next[j].num_pixels(), 1);
    }
}

#[test]
fn repeated_iterations_are_reproducible() {
    let image = sample_image();
    let start = [image[1], image[2], image[3], image[4], image[5]];
    let first = refine(&image, seeds(&start), 5, 6, Metric::Minkowski(2)).unwrap();
    for _ in 0..4 {
        let again = refine(&image, seeds(&start), 5, 6, Metric::Minkowski(2)).unwrap();
        assert_eq!(colors(&again), colors(&first));
    }
}

#[test]
fn refine_is_iterate_applied_in_sequence() {
    let image = sample_image();
    let start = [image[10], image[20], image[30]];
    let mut step = seeds(&start);
    assert_eq!(
        colors(&refine(&image, seeds(&start), 3, 0, Metric::SquaredEuclidean).unwrap()),
        colors(&step)
    );
    for n in 1..5 {
        step = iterate(&image, step, 3, Metric::SquaredEuclidean).unwrap();
        let direct = refine(&image, seeds(&start), 3, n, Metric::SquaredEuclidean).unwrap();
        assert_eq!(colors(&direct), colors(&step));
    }
}

#[test]
fn iterate_refuses_zero_clusters() {
    let image = vec![BLACK];
    assert!(matches!(
        iterate(&image, Vec::new(), 0, Metric::SquaredEuclidean),
        Err(Error::InvalidParameter)
    ));
}

#[test]
fn iterate_refuses_exponent_zero() {
    let image = vec![BLACK];
    assert!(matches!(
        iterate(&image, seeds(&[BLACK]), 1, Metric::Minkowski(0)),
        Err(Error::InvalidParameter)
    ));
}

#[test]
fn iterate_refuses_a_set_of_another_size() {
    let image = vec![BLACK, WHITE];
    assert!(matches!(
        iterate(&image, seeds(&[BLACK, WHITE]), 3, Metric::SquaredEuclidean),
        Err(Error::DimensionMismatch)
    ));
    assert!(matches!(
        iterate(&image, seeds(&[BLACK, WHITE]), 1, Metric::SquaredEuclidean),
        Err(Error::DimensionMismatch)
    ));
}

#[test]
fn iterate_refuses_a_centroid_without_pixels() {
    let image = vec![BLACK, WHITE];
    let start = vec![Bucket::new(&BLACK), Bucket::empty()];
    assert!(matches!(
        iterate(&image, start, 2, Metric::SquaredEuclidean),
        Err(Error::InvalidParameter)
    ));
}

#[test]
fn iterate_refuses_an_empty_image() {
    assert!(matches!(
        iterate(&Vec::new(), seeds(&[BLACK]), 1, Metric::SquaredEuclidean),
        Err(Error::EmptyImage)
    ));
}

#[test]
fn refine_refuses_what_iterate_refuses() {
    let image = vec![BLACK];
    for n in [0usize, 1, 3] {
        assert!(matches!(
            refine(&image, Vec::new(), 0, n, Metric::SquaredEuclidean),
            Err(Error::InvalidParameter)
        ));
        assert!(matches!(
            refine(&image, seeds(&[BLACK]), 2, n, Metric::SquaredEuclidean),
            Err(Error::DimensionMismatch)
        ));
        assert!(matches!(
            refine(&Vec::new(), seeds(&[BLACK]), 1, n, Metric::SquaredEuclidean),
            Err(Error::EmptyImage)
        ));
    }
}

#[test]
fn palette_of_a_centroid_set() {
    let set = vec![Bucket::new(&BLACK).add_pixel(&WHITE), Bucket::new(&GRAY)];
    assert_eq!(palette(&set), Some(vec![Color::new(32767, 32767, 32767), GRAY]));
    let with_empty = vec![Bucket::new(&BLACK), Bucket::empty()];
    assert_eq!(palette(&with_empty), None);
    assert_eq!(palette(&Vec::new()), Some(Vec::new()));
}

#[test]
fn init_buckets_seeds_from_the_given_positions() {
    let image = vec![Color::new(1, 1, 1), Color::new(2, 2, 2), Color::new(3, 3, 3)];
    let set = init_buckets(&image, &vec![2, 0, 2]).unwrap();
    assert_eq!(colors(&set), vec![image[2], image[0], image[2]]);
    assert!(set.iter().all(|b| b.num_pixels() == 1));
}

#[test]
fn init_buckets_refusals() {
    let image = vec![Color::new(1, 1, 1), Color::new(2, 2, 2)];
    assert!(matches!(init_buckets(&image, &Vec::new()), Err(Error::InvalidParameter)));
    assert!(matches!(init_buckets(&Vec::new(), &vec![0]), Err(Error::EmptyImage)));
    assert!(matches!(init_buckets(&image, &vec![0, 2]), Err(Error::InvalidParameter)));
    assert!(matches!(init_buckets(&Vec::new(), &Vec::new()), Err(Error::InvalidParameter)));
}

#[test]
fn init_centroids_draws_pixels_of_the_image() {
    let image = sample_image();
    let mut rng = StdRng::seed_from_u64(42);
    let set = init_centroids(&image, 16, &mut rng).unwrap();
    assert_eq!(set.len(), 16);
    for b in &set {
        assert_eq!(b.num_pixels(), 1);
        assert!(image.contains(&b.to_rgb()));
    }
    // the same seed draws the same centroids, another seed others
    let mut same = StdRng::seed_from_u64(42);
    assert_eq!(colors(&init_centroids(&image, 16, &mut same).unwrap()), colors(&set));
    let mut other = StdRng::seed_from_u64(43);
    assert_ne!(colors(&init_centroids(&image, 16, &mut other).unwrap()), colors(&set));
}

#[test]
fn init_centroids_samples_with_replacement() {
    // more centroids than pixels: some pixel is drawn twice
    let image = vec![BLACK, WHITE];
    let mut rng = StdRng::seed_from_u64(5);
    let set = init_centroids(&image, 5, &mut rng).unwrap();
    assert_eq!(set.len(), 5);
    assert!(colors(&set).iter().all(|c| *c == BLACK || *c == WHITE));
}

#[test]
fn init_centroids_refusals() {
    let mut rng = StdRng::seed_from_u64(1);
    assert!(matches!(init_centroids(&vec![BLACK], 0, &mut rng), Err(Error::InvalidParameter)));
    assert!(matches!(init_centroids(&Vec::new(), 3, &mut rng), Err(Error::EmptyImage)));
    assert!(matches!(init_centroids(&Vec::new(), 0, &mut rng), Err(Error::InvalidParameter)));
}

#[test]
fn cluster_runs_the_fixed_number_of_passes() {
    let image = sample_image();
    for iterations in [0usize, 1, 4] {
        let mut rng = StdRng::seed_from_u64(9);
        let last = cluster(&image, 6, iterations, Metric::Minkowski(2), &mut rng).unwrap();
        let mut rng = StdRng::seed_from_u64(9);
        let first = init_centroids(&image, 6, &mut rng).unwrap();
        let expected = refine(&image, first, 6, iterations, Metric::Minkowski(2)).unwrap();
        assert_eq!(colors(&last), colors(&expected));
    }
}

#[test]
fn cluster_refusals() {
    let mut rng = StdRng::seed_from_u64(1);
    let image = vec![BLACK, WHITE];
    assert!(matches!(
        cluster(&image, 0, 3, Metric::SquaredEuclidean, &mut rng),
        Err(Error::InvalidParameter)
    ));
    assert!(matches!(
        cluster(&image, 2, 3, Metric::Minkowski(0), &mut rng),
        Err(Error::InvalidParameter)
    ));
    assert!(matches!(
        cluster(&Vec::new(), 2, 3, Metric::SquaredEuclidean, &mut rng),
        Err(Error::EmptyImage)
    ));
}
