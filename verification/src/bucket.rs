//! Buckets: the accumulators that clusters are summed in and the centroids
//! are kept as.

use crate::color::Color;
use vstd::prelude::*;

verus! {

/// What a bucket holds, as numbers: the sum of each channel over the pixels
/// folded into it, and how many pixels that was.
pub struct Tally {
    pub r: nat,
    pub g: nat,
    pub b: nat,
    pub count: nat,
}

impl Tally {
    /// The tally of no pixels: the identity of [`Tally::plus`].
    pub open spec fn zero() -> Tally {
        Tally { r: 0, g: 0, b: 0, count: 0 }
    }

    /// The tally of one pixel.
    pub open spec fn seed(pixel: Color) -> Tally {
        Tally { r: pixel.r as nat, g: pixel.g as nat, b: pixel.b as nat, count: 1 }
    }

    /// The tally with one more pixel folded in.
    pub open spec fn add_pixel(self, pixel: Color) -> Tally {
        Tally {
            r: self.r + pixel.r as nat,
            g: self.g + pixel.g as nat,
            b: self.b + pixel.b as nat,
            count: self.count + 1,
        }
    }

    /// The tally of the pixels of both.
    pub open spec fn plus(self, other: Tally) -> Tally {
        Tally {
            r: self.r + other.r,
            g: self.g + other.g,
            b: self.b + other.b,
            count: self.count + other.count,
        }
    }

    /// No channel sum exceeds what `count` pixels can add up to.
    pub open spec fn bounded(self) -> bool {
        &&& self.r <= 65535 * self.count
        &&& self.g <= 65535 * self.count
        &&& self.b <= 65535 * self.count
    }

    /// The average color: each channel sum divided by the count, rounded
    /// down. It is meaningful only where `count` is positive.
    pub open spec fn color(self) -> Color {
        Color {
            r: (self.r / self.count) as u16,
            g: (self.g / self.count) as u16,
            b: (self.b / self.count) as u16,
        }
    }

    /// The tally of one pixel of the average color.
    pub open spec fn mean(self) -> Tally {
        Tally::seed(self.color())
    }
}

/// An accumulator for one cluster: the running sum of the pixels assigned to
/// it and their number. A bucket that was seeded or averaged counts one pixel.
#[derive(Clone, Copy, Debug, PartialEq, Eq)]
pub struct Bucket {
    r: u128,
    g: u128,
    b: u128,
    num_pixels: u64,
}

/// A centroid is the bucket that stands for one cluster.
pub type Centroid = Bucket;

impl View for Bucket {
    type V = Tally;

    closed spec fn view(&self) -> Tally {
        Tally {
            r: self.r as nat,
            g: self.g as nat,
            b: self.b as nat,
            count: self.num_pixels as nat,
        }
    }
}

impl Bucket {
    #[verifier::type_invariant]
    spec fn within_bounds(self) -> bool {
        self@.bounded()
    }

    /// A bucket seeded with one pixel.
    pub fn new(pixel: &Color) -> (bucket: Bucket)
        ensures
            bucket@ == Tally::seed(*pixel),
    {
        Bucket { r: pixel.r as u128, g: pixel.g as u128, b: pixel.b as u128, num_pixels: 1 }
    }

    /// A bucket that holds no pixel.
    pub fn empty() -> (bucket: Bucket)
        ensures
            bucket@ == Tally::zero(),
    {
        Bucket { r: 0, g: 0, b: 0, num_pixels: 0 }
    }

    /// The number of pixels folded into the bucket.
    pub fn num_pixels(&self) -> (n: u64)
        ensures
            n == self@.count,
    {
        self.num_pixels
    }

    /// The sums of the red, green and blue channels over the pixels folded
    /// into the bucket.
    pub fn sums(&self) -> (rgb: (u128, u128, u128))
        ensures
            rgb.0 == self@.r,
            rgb.1 == self@.g,
            rgb.2 == self@.b,
            self@.bounded(),
    {
        proof {
            use_type_invariant(self);
        }
        (self.r, self.g, self.b)
    }

    /// The bucket after one more pixel is folded in.
    pub fn add_pixel(self, pixel: &Color) -> (bucket: Bucket)
        requires
            self@.count < u64::MAX,
        ensures
            bucket@ == self@.add_pixel(*pixel),
    {
        proof {
            use_type_invariant(&self);
        }
        Bucket {
            r: self.r + pixel.r as u128,
            g: self.g + pixel.g as u128,
            b: self.b + pixel.b as u128,
            num_pixels: self.num_pixels + 1,
        }
    }

    /// Folds the pixels of `rhs` into this bucket.
    pub fn add_assign(&mut self, rhs: Bucket)
        requires
            old(self)@.count + rhs@.count <= u64::MAX,
        ensures
            final(self)@ == old(self)@.plus(rhs@),
    {
        proof {
            use_type_invariant(&*self);
            use_type_invariant(&rhs);
        }
        *self = Bucket {
            r: self.r + rhs.r,
            g: self.g + rhs.g,
            b: self.b + rhs.b,
            num_pixels: self.num_pixels + rhs.num_pixels,
        };
    }

    /// The average color of the pixels in the bucket.
    pub fn to_rgb(&self) -> (color: Color)
        requires
            self@.count > 0,
        ensures
            color == self@.color(),
    {
        proof {
            use_type_invariant(self);
            lemma_quotient_bound(self.r as nat, self.num_pixels as nat);
            lemma_quotient_bound(self.g as nat, self.num_pixels as nat);
            lemma_quotient_bound(self.b as nat, self.num_pixels as nat);
        }
        let n = self.num_pixels as u128;
        Color { r: (self.r / n) as u16, g: (self.g / n) as u16, b: (self.b / n) as u16 }
    }

    /// The average color of the pixels in the bucket, as 8-bit samples.
    pub fn to_rgb_u8(&self) -> (rgb: (u8, u8, u8))
        requires
            self@.count > 0,
        ensures
            rgb == self@.color().rgb8(),
    {
        self.to_rgb().to_rgb8()
    }

    /// The bucket collapsed to its average: one pixel of the average color.
    pub fn average(&self) -> (bucket: Bucket)
        requires
            self@.count > 0,
        ensures
            bucket@ == self@.mean(),
    {
        let color = self.to_rgb();
        Bucket::new(&color)
    }
}

/// A sum of `count` values of at most 65535 each, divided by `count`, is at
/// most 65535.
proof fn lemma_quotient_bound(sum: nat, count: nat)
    requires
        count > 0,
        sum <= 65535 * count,
    ensures
        sum / count <= 65535,
{
    assert(sum / count <= 65535) by (nonlinear_arith)
        requires
            count > 0,
            sum <= 65535 * count,
    ;
}

/// Folding two tallies together is commutative and associative, and the zero
/// tally is its identity.
pub proof fn lemma_plus_monoid(a: Tally, b: Tally, c: Tally)
    ensures
        a.plus(b) == b.plus(a),
        a.plus(b).plus(c) == a.plus(b.plus(c)),
        a.plus(Tally::zero()) == a,
        Tally::zero().plus(a) == a,
{
}

/// Folding in a pixel is folding in the tally of that pixel.
pub proof fn lemma_add_pixel_is_plus_seed(a: Tally, pixel: Color)
    ensures
        a.add_pixel(pixel) == a.plus(Tally::seed(pixel)),
{
}

/// A bucket seeded with a pixel has the color of that pixel and is its own
/// average.
pub proof fn lemma_seed_color(pixel: Color)
    ensures
        Tally::seed(pixel).color() == pixel,
        Tally::seed(pixel).mean() == Tally::seed(pixel),
        Tally::seed(pixel).bounded(),
{
}

/// Averaging keeps the color, counts one pixel, and changes nothing when it
/// is done again.
pub proof fn lemma_mean_idempotent(a: Tally)
    requires
        a.count > 0,
        a.bounded(),
    ensures
        a.mean().color() == a.color(),
        a.mean().count == 1,
        a.mean().bounded(),
        a.mean().mean() == a.mean(),
{
    lemma_quotient_bound(a.r, a.count);
    lemma_quotient_bound(a.g, a.count);
    lemma_quotient_bound(a.b, a.count);
}

} // verus!
