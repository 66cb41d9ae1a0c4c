use vstd::arithmetic::div_mod::lemma_fundamental_div_mod_converse;
use vstd::arithmetic::mul::lemma_mul_inequality;
use vstd::prelude::*;

verus! {

/// Why a render cannot start.
#[derive(Clone, Copy, Debug, PartialEq, Eq, Structural)]
pub enum ConfigError {
    /// The image is zero or fewer pixels wide.
    NonPositiveWidth,
    /// The image is zero or fewer pixels high.
    NonPositiveHeight,
    /// Fewer than one sample per pixel: the average of the samples is undefined.
    NoSamples,
    /// The pixel count does not fit in an `i64`.
    TooManyPixels,
}

/// The integer settings of a render: the image size in pixels, the samples
/// traced per pixel and the bound on the bounces of a path.
#[derive(Clone, Copy, Debug, PartialEq, Eq, Structural)]
pub struct RenderSize {
    pub image_width: i64,
    pub image_height: i64,
    pub samples_per_pixel: i64,
    pub max_depth: i64,
}

pub open spec fn config_error(
    image_width: i64,
    image_height: i64,
    samples_per_pixel: i64,
) -> Option<ConfigError> {
    if image_width <= 0 {
        Some(ConfigError::NonPositiveWidth)
    } else if image_height <= 0 {
        Some(ConfigError::NonPositiveHeight)
    } else if samples_per_pixel < 1 {
        Some(ConfigError::NoSamples)
    } else if image_width * image_height > i64::MAX {
        Some(ConfigError::TooManyPixels)
    } else {
        None
    }
}

/// Pixel `k` of the output order, as (row, column), on an image `width`
/// pixels wide.
pub open spec fn pixel_at(width: i64, k: int) -> (i64, i64) {
    ((k / width as int) as i64, (k % width as int) as i64)
}

impl RenderSize {
    /// Positive size and sample count, and a pixel count that fits.
    pub open spec fn wf(self) -> bool {
        config_error(self.image_width, self.image_height, self.samples_per_pixel) is None
    }

    pub open spec fn pixel_count_spec(self) -> int {
        self.image_width * self.image_height
    }

    /// Checks the settings; the first failing check, in the order width,
    /// height, samples, pixel count, is the error.
    pub fn new(image_width: i64, image_height: i64, samples_per_pixel: i64, max_depth: i64) -> (r:
        Result<RenderSize, ConfigError>)
        ensures
            match config_error(image_width, image_height, samples_per_pixel) {
                Some(e) => r == Err::<RenderSize, ConfigError>(e),
                None => r == Ok::<RenderSize, ConfigError>(
                    RenderSize { image_width, image_height, samples_per_pixel, max_depth },
                ),
            },
    {
        if image_width <= 0 {
            return Err(ConfigError::NonPositiveWidth);
        }
        if image_height <= 0 {
            return Err(ConfigError::NonPositiveHeight);
        }
        if samples_per_pixel < 1 {
            return Err(ConfigError::NoSamples);
        }
        match image_width.checked_mul(image_height) {
            None => Err(ConfigError::TooManyPixels),
            Some(_) => Ok(RenderSize { image_width, image_height, samples_per_pixel, max_depth }),
        }
    }

    /// The number of pixels of the image.
    pub fn pixel_count(&self) -> (r: i64)
        requires
            self.wf(),
        ensures
            r == self.pixel_count_spec(),
    {
        self.image_width * self.image_height
    }

    /// The pixels in output order, as (row, column): top to bottom, and left
    /// to right within a row.
    pub fn pixel_order(&self) -> (r: Vec<(i64, i64)>)
        requires
            self.wf(),
            self.pixel_count_spec() <= usize::MAX,
        ensures
            r@.len() == self.pixel_count_spec(),
            forall|k: int|
                0 <= k < r@.len() ==> #[trigger] r@[k] == pixel_at(self.image_width, k),
    {
        let w = self.image_width;
        let h = self.image_height;
        let mut r: Vec<(i64, i64)> = Vec::new();
        let mut row: i64 = 0;
        while row < h
            invariant
                0 < w,
                0 < h,
                w * h <= i64::MAX,
                0 <= row <= h,
                r@.len() == row * w,
                forall|k: int|
                    0 <= k < r@.len() ==> #[trigger] r@[k] == pixel_at(w, k),
            decreases h - row,
        {
            let mut col: i64 = 0;
            while col < w
                invariant
                    0 < w,
                    0 < h,
                    w * h <= i64::MAX,
                    0 <= row < h,
                    0 <= col <= w,
                    r@.len() == row * w + col,
                    forall|k: int|
                        0 <= k < r@.len() ==> #[trigger] r@[k] == pixel_at(w, k),
                decreases w - col,
            {
                proof {
                    lemma_fundamental_div_mod_converse(row * w + col, w as int, row as int, col as int);
                    lemma_mul_inequality(row as int, (h - 1) as int, w as int);
                }
                r.push((row, col));
                col = col + 1;
            }
            proof {
                assert((row + 1) * w == row * w + w) by (nonlinear_arith);
            }
            row = row + 1;
        }
        proof {
            assert(row * w == w * h) by (nonlinear_arith)
                requires
                    row == h,
            ;
        }
        r
    }
}

} // verus!
