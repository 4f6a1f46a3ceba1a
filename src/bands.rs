use vstd::prelude::*;
use image::RgbImage;

verus! {

/// One pixel: its red, green and blue channels.
pub type Rgb8 = (u8, u8, u8);

/// An RGB image of the image crate with eight bits per channel, kept behind a
/// type of this library. What it holds is known to the proofs only through
/// `pixel_rows` and `raw_len`.
#[verifier::external_body]
pub struct Canvas {
    img: RgbImage,
}

/// The pixels of a canvas as rows from top to bottom, each row from left to
/// right.
pub uninterp spec fn pixel_rows(c: Canvas) -> Seq<Seq<Rgb8>>;

/// The length of the channel buffer behind a canvas.
pub uninterp spec fn raw_len(c: Canvas) -> nat;

pub open spec fn black() -> Rgb8 {
    (0u8, 0u8, 0u8)
}

/// `height` rows of `width` black pixels.
pub open spec fn blank_rows(width: u32, height: u32) -> Seq<Seq<Rgb8>> {
    Seq::new(height as nat, |j: int| Seq::new(width as nat, |i: int| black()))
}

/// The pixel at column `x` of row `y` in a row-major buffer of three channels
/// per pixel and `width` pixels per row.
pub open spec fn raw_pixel(buf: Seq<u8>, width: nat, y: int, x: int) -> Rgb8 {
    let n = (y * width + x) * 3;
    (buf[n], buf[n + 1], buf[n + 2])
}

/// The first `height` rows of `width` pixels of a row-major channel buffer.
pub open spec fn raw_rows(buf: Seq<u8>, width: nat, height: nat) -> Seq<Seq<Rgb8>> {
    Seq::new(height, |y: int| Seq::new(width, |x: int| raw_pixel(buf, width, y, x)))
}

/// Relies on image's `ImageBuffer::new`: an image of `height` rows of `width`
/// pixels, all channels zero, over a buffer of exactly its channels. It panics
/// when `3 * width`, or the channel count `3 * width * height`, does not fit in
/// `usize` (the product is checked in that order).
#[verifier::external_body]
fn new_canvas(width: u32, height: u32) -> (r: Canvas)
    requires
        3 * (width as int) <= usize::MAX,
        3 * (width as int) * (height as int) <= usize::MAX,
    ensures
        pixel_rows(r) == blank_rows(width, height),
        raw_len(r) == 3 * (width as int) * (height as int),
{
    Canvas { img: RgbImage::new(width, height) }
}

/// Relies on image's `ImageBuffer::from_raw`: `None` when `3 * width` overflows
/// `usize` or the buffer is shorter than `3 * width * height` channels (a count
/// that overflows `usize` is longer than any buffer), else the image whose
/// pixels the buffer holds row by row.
#[verifier::external_body]
fn canvas_from_raw(width: u32, height: u32, buf: Vec<u8>) -> (r: Option<Canvas>)
    ensures
        r is Some <==> (3 * (width as int) <= usize::MAX && 3 * (width as int) * (height as int) <= buf@.len()),
        r matches Some(c) ==> pixel_rows(c) == raw_rows(buf@, width as nat, height as nat)
            && raw_len(c) == buf@.len(),
{
    RgbImage::from_raw(width, height, buf).map(|img| Canvas { img })
}

/// Relies on image's `ImageBuffer::into_raw`: the channel buffer, row by row.
#[verifier::external_body]
fn canvas_into_raw(c: Canvas) -> (r: Vec<u8>)
    ensures
        r@.len() == raw_len(c),
        forall|y: int, x: int|
            0 <= y < pixel_rows(c).len() && 0 <= x < pixel_rows(c)[y].len() ==> raw_pixel(
                r@,
                pixel_rows(c)[y].len(),
                y,
                x,
            ) == #[trigger] pixel_rows(c)[y][x],
{
    c.img.into_raw()
}

/// Relies on image's `ImageBuffer::get_pixel`: the pixel at column `x` of row
/// `y`; it panics outside the image.
#[verifier::external_body]
fn get_pixel(c: &Canvas, x: u32, y: u32) -> (r: Rgb8)
    requires
        y < pixel_rows(*c).len(),
        x < pixel_rows(*c)[y as int].len(),
    ensures
        r == pixel_rows(*c)[y as int][x as int],
{
    let p = c.img.get_pixel(x, y).0;
    (p[0], p[1], p[2])
}

/// Relies on image's `ImageBuffer::put_pixel`: the pixel at column `x` of row
/// `y` becomes `px` and nothing else changes; it panics outside the image.
#[verifier::external_body]
fn put_pixel(c: &mut Canvas, x: u32, y: u32, px: Rgb8)
    requires
        y < pixel_rows(*old(c)).len(),
        x < pixel_rows(*old(c))[y as int].len(),
    ensures
        pixel_rows(*final(c)) == pixel_rows(*old(c)).update(
            y as int,
            pixel_rows(*old(c))[y as int].update(x as int, px),
        ),
        raw_len(*final(c)) == raw_len(*old(c)),
{
    c.img.put_pixel(x, y, image::Rgb([px.0, px.1, px.2]))
}

/// The rows `[start, end)` of the `k`-th of `n_jobs` bands of an image of
/// `image_height` rows. Every band but the last has `image_height / n_jobs`
/// rows; the last band ends at the bottom of the image, so it also takes the
/// rows left over when `n_jobs` does not divide the height.
pub fn band_rows(image_height: u32, n_jobs: u32, k: u32) -> (r: (u32, u32))
    requires
        0 < n_jobs,
        k < n_jobs,
    ensures
        r.0 == band_start(image_height, n_jobs, k as int),
        r.1 == band_end(image_height, n_jobs, k as int),
        r.0 == k * (image_height / n_jobs),
        r.1 == if k + 1 == n_jobs {
            image_height as int
        } else {
            (k + 1) * (image_height / n_jobs)
        },
        r.0 <= r.1 <= image_height,
{
    let delta = image_height / n_jobs;
    proof {
        assert(k * delta <= (k + 1) * delta <= n_jobs * delta) by (nonlinear_arith)
            requires k + 1 <= n_jobs;
        assert(n_jobs * delta <= image_height) by (nonlinear_arith)
            requires delta == image_height / n_jobs, n_jobs > 0;
    }
    if k + 1 == n_jobs {
        (k * delta, image_height)
    } else {
        (k * delta, (k + 1) * delta)
    }
}

/// A band of rows `[start, end)` of an image, rendered on its own: its
/// pixels row by row, three channels each, in the image crate's raw layout.
#[derive(Clone, Debug)]
pub struct Band {
    pub start: u32,
    pub end: u32,
    pub pixels: Vec<u8>,
}

/// Why bands could not be assembled into an image.
#[derive(Clone, Copy, Debug, PartialEq, Eq)]
pub enum BandError {
    /// The image's channel count does not fit in `usize`.
    TooLarge,
    /// A band lies outside the image or holds fewer pixels than its rows need.
    MalformedBand,
}

/// The channels of a `width` by `height` image fit in `usize`.
pub open spec fn fits_usize(width: u32, height: u32) -> bool {
    &&& 3 * (width as int) <= usize::MAX
    &&& 3 * (width as int) * (height as int) <= usize::MAX
}

/// The band lies within an image of `height` rows and holds at least its
/// rows' pixels.
pub open spec fn band_fits(b: Band, width: u32, height: u32) -> bool {
    &&& b.start <= b.end <= height
    &&& 3 * (width as int) * ((b.end - b.start) as int) <= b.pixels@.len()
}

/// The rows of pixels a band holds.
pub open spec fn band_pixels(b: Band, width: u32) -> Seq<Seq<Rgb8>> {
    raw_rows(b.pixels@, width as nat, (b.end - b.start) as nat)
}

/// `grid` with the band's rows written over it.
pub open spec fn paint(grid: Seq<Seq<Rgb8>>, b: Band, width: u32) -> Seq<Seq<Rgb8>> {
    Seq::new(
        grid.len(),
        |j: int|
            if b.start <= j < b.end {
                band_pixels(b, width)[j - b.start]
            } else {
                grid[j]
            },
    )
}

/// A black `width` by `height` image with the bands written over it in order.
pub open spec fn assembled(width: u32, height: u32, bands: Seq<Band>) -> Seq<Seq<Rgb8>>
    decreases bands.len(),
{
    if bands.len() == 0 {
        blank_rows(width, height)
    } else {
        paint(assembled(width, height, bands.drop_last()), bands.last(), width)
    }
}

proof fn lemma_assembled_shape(width: u32, height: u32, bands: Seq<Band>)
    ensures
        assembled(width, height, bands).len() == height,
        forall|j: int|
            0 <= j < height ==> (#[trigger] assembled(width, height, bands)[j]).len() == width,
    decreases bands.len(),
{
    if bands.len() > 0 {
        lemma_assembled_shape(width, height, bands.drop_last());
    }
}

/// Assembles a `width` by `height` image from bands rendered on their own,
/// each written over the rows it covers, in the order given; rows that no
/// band covers stay black. The result is the image's raw channel buffer.
pub fn assemble_bands(width: u32, height: u32, bands: &Vec<Band>) -> (r: Result<Vec<u8>, BandError>)
    ensures
        !fits_usize(width, height) ==> r == Err::<Vec<u8>, BandError>(BandError::TooLarge),
        fits_usize(width, height) && (exists|k: int|
            0 <= k < bands@.len() && !band_fits(#[trigger] bands@[k], width, height)) ==> r
            == Err::<Vec<u8>, BandError>(BandError::MalformedBand),
        fits_usize(width, height) && (forall|k: int|
            0 <= k < bands@.len() ==> band_fits(#[trigger] bands@[k], width, height)) ==> r is Ok,
        r matches Ok(raw) ==> {
            &&& raw@.len() == 3 * (width as int) * (height as int)
            &&& raw_rows(raw@, width as nat, height as nat) == assembled(width, height, bands@)
        },
{
    proof {
        assert((width as int) * (height as int) <= u32::MAX * u32::MAX) by (nonlinear_arith)
            requires
                width <= u32::MAX,
                height <= u32::MAX,
        ;
    }
    let area: u64 = (width as u64) * (height as u64);
    if width as u64 > (usize::MAX / 3) as u64 || area > (usize::MAX / 3) as u64 {
        proof {
            if area > usize::MAX / 3 {
                assert(3 * (width as int) * (height as int) > usize::MAX) by (nonlinear_arith)
                    requires
                        area == (width as int) * (height as int),
                        area > usize::MAX / 3,
                ;
            }
        }
        return Err(BandError::TooLarge);
    }
    proof {
        assert(3 * (width as int) * (height as int) <= usize::MAX) by (nonlinear_arith)
            requires
                area == (width as int) * (height as int),
                area <= usize::MAX / 3,
        ;
    }
    let mut result = new_canvas(width, height);
    proof {
        assert(bands@.subrange(0, 0) =~= Seq::<Band>::empty());
    }
    let mut k: usize = 0;
    while k < bands.len()
        invariant
            k <= bands@.len(),
            fits_usize(width, height),
            forall|q: int| 0 <= q < k ==> band_fits(#[trigger] bands@[q], width, height),
            pixel_rows(result) == assembled(width, height, bands@.subrange(0, k as int)),
            raw_len(result) == 3 * (width as int) * (height as int),
        decreases bands@.len() - k,
    {
        let b = &bands[k];
        if b.start > b.end || b.end > height {
            return Err(BandError::MalformedBand);
        }
        let rows = b.end - b.start;
        let buf = b.pixels.clone();
        proof {
            assert(buf@ =~= b.pixels@);
        }
        let view = match canvas_from_raw(width, rows, buf) {
            Some(c) => c,
            None => {
                return Err(BandError::MalformedBand);
            },
        };
        let ghost base = pixel_rows(result);
        proof {
            lemma_assembled_shape(width, height, bands@.subrange(0, k as int));
        }
        let mut y: u32 = 0;
        while y < rows
            invariant
                y <= rows,
                rows == b.end - b.start,
                b.start <= b.end <= height,
                pixel_rows(view) == band_pixels(*b, width),
                base.len() == height,
                forall|j: int| 0 <= j < height ==> (#[trigger] base[j]).len() == width,
                pixel_rows(result).len() == height,
                forall|j: int| 0 <= j < height ==> (#[trigger] pixel_rows(result)[j]).len() == width,
                forall|j: int, x: int|
                    0 <= j < height && 0 <= x < width ==> #[trigger] pixel_rows(result)[j][x] == if b.start
                        <= j < b.start + y {
                        band_pixels(*b, width)[j - b.start][x]
                    } else {
                        base[j][x]
                    },
                raw_len(result) == 3 * (width as int) * (height as int),
            decreases rows - y,
        {
            let mut x: u32 = 0;
            while x < width
                invariant
                    x <= width,
                    y < rows,
                    rows == b.end - b.start,
                    b.start <= b.end <= height,
                    pixel_rows(view) == band_pixels(*b, width),
                    base.len() == height,
                    forall|j: int| 0 <= j < height ==> (#[trigger] base[j]).len() == width,
                    pixel_rows(result).len() == height,
                    forall|j: int|
                        0 <= j < height ==> (#[trigger] pixel_rows(result)[j]).len() == width,
                    forall|j: int, i: int|
                        0 <= j < height && 0 <= i < width ==> #[trigger] pixel_rows(result)[j][i]
                            == if b.start <= j < b.start + y || (j == b.start + y && i < x) {
                            band_pixels(*b, width)[j - b.start][i]
                        } else {
                            base[j][i]
                        },
                    raw_len(result) == 3 * (width as int) * (height as int),
                decreases width - x,
            {
                let px = get_pixel(&view, x, y);
                put_pixel(&mut result, x, b.start + y, px);
                x = x + 1;
            }
            y = y + 1;
        }
        proof {
            let prefix = bands@.subrange(0, k + 1);
            assert(prefix.drop_last() =~= bands@.subrange(0, k as int));
            assert(prefix.last() == *b);
            assert forall|j: int| 0 <= j < height implies #[trigger] pixel_rows(result)[j]
                =~= paint(base, *b, width)[j] by {
                if b.start <= j < b.end {
                    assert(band_pixels(*b, width)[j - b.start].len() == width);
                }
            }
            assert(pixel_rows(result) =~= paint(base, *b, width));
        }
        k = k + 1;
    }
    let raw = canvas_into_raw(result);
    proof {
        assert(bands@.subrange(0, bands@.len() as int) =~= bands@);
        lemma_assembled_shape(width, height, bands@);
        let rows = pixel_rows(result);
        assert forall|j: int| 0 <= j < height implies #[trigger] raw_rows(
            raw@,
            width as nat,
            height as nat,
        )[j] =~= rows[j] by {
            assert forall|i: int| 0 <= i < width implies raw_rows(
                raw@,
                width as nat,
                height as nat,
            )[j][i] == #[trigger] rows[j][i] by {
                assert(rows[j].len() == width);
            }
        }
        assert(raw_rows(raw@, width as nat, height as nat) =~= rows);
    }
    Ok(raw)
}

/// Row `j` is one of the band's rows.
pub open spec fn covers(b: Band, j: int) -> bool {
    b.start <= j < b.end
}

/// The two bands share no row.
pub open spec fn rows_disjoint(a: Band, b: Band) -> bool {
    a.end <= b.start || b.end <= a.start
}

/// When no two bands share a row, the order of the bands does not matter:
/// every row of the assembled image is the row of the band that covers it,
/// and a row that no band covers is black.
pub proof fn lemma_disjoint_bands_keyed(width: u32, height: u32, bands: Seq<Band>)
    requires
        forall|a: int, b: int|
            0 <= a < b < bands.len() ==> rows_disjoint(#[trigger] bands[a], #[trigger] bands[b]),
    ensures
        forall|k: int, j: int|
            0 <= k < bands.len() && bands[k].start <= j < bands[k].end && j < height
                ==> #[trigger] assembled(width, height, bands)[j] == band_pixels(
                #[trigger] bands[k],
                width,
            )[j - bands[k].start],
        forall|j: int|
            0 <= j < height && (forall|k: int|
                0 <= k < bands.len() ==> !covers(#[trigger] bands[k], j)) ==> #[trigger] assembled(
                width,
                height,
                bands,
            )[j] == blank_rows(width, height)[j],
    decreases bands.len(),
{
    if bands.len() > 0 {
        let prefix = bands.drop_last();
        let n = bands.len() - 1;
        lemma_disjoint_bands_keyed(width, height, prefix);
        lemma_assembled_shape(width, height, prefix);
        assert forall|k: int, j: int|
            0 <= k < bands.len() && bands[k].start <= j < bands[k].end && j < height implies #[trigger] assembled(
            width,
            height,
            bands,
        )[j] == band_pixels(#[trigger] bands[k], width)[j - bands[k].start] by {
            if k < n {
                assert(rows_disjoint(bands[k], bands[n]));
                assert(prefix[k] == bands[k]);
            }
        }
        assert forall|j: int|
            0 <= j < height && (forall|k: int|
                0 <= k < bands.len() ==> !covers(#[trigger] bands[k], j)) implies #[trigger] assembled(
            width,
            height,
            bands,
        )[j] == blank_rows(width, height)[j] by {
            assert(!covers(bands[n], j));
            assert forall|k: int| 0 <= k < prefix.len() implies !covers(#[trigger] prefix[k], j) by {
                assert(prefix[k] == bands[k]);
            }
        }
    }
}

/// First row of the `k`-th of `n_jobs` planned bands.
pub open spec fn band_start(image_height: u32, n_jobs: u32, k: int) -> int {
    k * (image_height / n_jobs)
}

/// End (exclusive) of the `k`-th of `n_jobs` planned bands.
pub open spec fn band_end(image_height: u32, n_jobs: u32, k: int) -> int {
    if k + 1 == n_jobs {
        image_height as int
    } else {
        (k + 1) * (image_height / n_jobs)
    }
}

/// The bands that `band_rows` plans partition the image's rows: the first
/// starts at row 0, each ends where the next starts, the last ends at the
/// bottom, and no band ends before it starts. So every row lies in exactly
/// one band.
pub proof fn lemma_planned_bands_partition(image_height: u32, n_jobs: u32)
    requires
        0 < n_jobs,
    ensures
        band_start(image_height, n_jobs, 0) == 0,
        band_end(image_height, n_jobs, n_jobs - 1) == image_height,
        forall|k: int|
            0 <= k < n_jobs - 1 ==> #[trigger] band_end(image_height, n_jobs, k) == band_start(
                image_height,
                n_jobs,
                k + 1,
            ),
        forall|k: int|
            0 <= k < n_jobs ==> band_start(image_height, n_jobs, k) <= #[trigger] band_end(
                image_height,
                n_jobs,
                k,
            ) <= image_height,
{
    let d = image_height / n_jobs;
    assert(n_jobs * d <= image_height) by (nonlinear_arith)
        requires
            d == image_height / n_jobs,
            n_jobs > 0,
    ;
    assert forall|k: int| 0 <= k < n_jobs implies band_start(image_height, n_jobs, k)
        <= #[trigger] band_end(image_height, n_jobs, k) <= image_height by {
        assert(k * d <= (k + 1) * d <= n_jobs * d) by (nonlinear_arith)
            requires
                0 <= k,
                k + 1 <= n_jobs,
                d >= 0,
        ;
    }
}

} // verus!
