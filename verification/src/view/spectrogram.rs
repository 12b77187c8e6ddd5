//! A spectrogram that scrolls: one row of pixels per spectrum, turned by a quarter for display.

use image::imageops;
use image::Rgba;
use image::RgbaImage;
use vstd::arithmetic::div_mod::lemma_div_pos_is_pos;
use vstd::arithmetic::div_mod::lemma_fundamental_div_mod_converse;
use vstd::prelude::*;

verus! {

/// An image with a red, green, blue and alpha byte per pixel.
#[verifier::external_body]
pub struct Picture {
    inner: RgbaImage,
}

/// The bytes of an image, row by row.
pub uninterp spec fn bytes_of(im: Picture) -> Seq<u8>;

/// The number of pixels in a row of an image.
pub uninterp spec fn width_of(im: Picture) -> nat;

/// The number of rows of an image.
pub uninterp spec fn height_of(im: Picture) -> nat;

/// The position of the first byte of a pixel.
pub open spec fn pixel_start(width: nat, x: nat, y: nat) -> nat {
    4 * (y * width + x)
}

/// The bytes of an image, turned by 270 degrees clockwise: column `y` holds what row `y` held,
/// with its first pixel at the bottom.
pub open spec fn turned(bytes: Seq<u8>, width: nat, height: nat) -> Seq<u8> {
    Seq::new(
        bytes.len(),
        |b: int|
            {
                let p = b / 4;
                let y = p % (height as int);
                let x = width - 1 - p / (height as int);
                bytes[4 * (y * width + x) + b % 4]
            },
    )
}

/// Makes an image of zeros with `ImageBuffer::new`.
#[verifier::external_body]
fn blank(width: u32, height: u32) -> (im: Picture)
    requires
        4 * width <= usize::MAX,
        4 * (width * height) <= isize::MAX,
    ensures
        width_of(im) == width,
        height_of(im) == height,
        bytes_of(im) == Seq::new((4 * (width * height)) as nat, |b: int| 0u8),
{
    Picture { inner: RgbaImage::new(width, height) }
}

/// Sets a pixel with `ImageBuffer::put_pixel`.
#[verifier::external_body]
fn paint(im: &mut Picture, x: u32, y: u32, color: [u8; 4])
    requires
        x < width_of(*old(im)),
        y < height_of(*old(im)),
    ensures
        width_of(*final(im)) == width_of(*old(im)),
        height_of(*final(im)) == height_of(*old(im)),
        bytes_of(*final(im)) == Seq::new(
            bytes_of(*old(im)).len(),
            |b: int|
                {
                    let start = pixel_start(width_of(*old(im)), x as nat, y as nat);
                    if start <= b < start + 4 {
                        color@[b - start]
                    } else {
                        bytes_of(*old(im))[b]
                    }
                },
        ),
{
    im.inner.put_pixel(x, y, Rgba(color))
}

/// Rotates the bytes of an image with the `rotate_left` of slices.
#[verifier::external_body]
fn rotate(im: &mut Picture, mid: usize)
    requires
        mid <= bytes_of(*old(im)).len(),
    ensures
        width_of(*final(im)) == width_of(*old(im)),
        height_of(*final(im)) == height_of(*old(im)),
        bytes_of(*final(im)) == bytes_of(*old(im)).skip(mid as int) + bytes_of(*old(im)).take(
            mid as int,
        ),
{
    im.inner.rotate_left(mid)
}

/// Turns an image with [`imageops::rotate270`] and hands out its bytes.
#[verifier::external_body]
fn turn(im: &Picture) -> (bytes: Vec<u8>)
    requires
        4 * height_of(*im) <= usize::MAX,
    ensures
        bytes@ == turned(bytes_of(*im), width_of(*im), height_of(*im)),
{
    imageops::rotate270(&im.inner).as_raw().to_vec()
}

/// Whether a pixel among the first `upto` belongs to one of the first `m` rows and has a value.
pub open spec fn is_painted(p: int, width: nat, specs: Seq<Vec<u8>>, m: nat, upto: int) -> bool {
    p < upto && p / (width as int) < m && p % (width as int) < specs[p / (width as int)]@.len()
}

/// The bytes of an image with rows of colors painted over its first `m` rows, as far as they have
/// values, and as far as the pixel numbered `upto`.
pub open spec fn painted(
    bytes: Seq<u8>,
    width: nat,
    specs: Seq<Vec<u8>>,
    palette: Seq<[u8; 4]>,
    m: nat,
    upto: int,
) -> Seq<u8> {
    Seq::new(
        bytes.len(),
        |b: int|
            {
                let p = b / 4;
                if is_painted(p, width, specs, m, upto) {
                    palette[specs[p / (width as int)]@[p % (width as int)] as int]@[b % 4]
                } else {
                    bytes[b]
                }
            },
    )
}

/// A spectrogram. Its image holds a row per spectrum and a column per frequency.
pub struct SpecImage {
    im: Picture,
    n_frames: u32,
    n_freqs: u32,
}

impl SpecImage {
    /// The bytes of the image, row by row.
    pub closed spec fn bytes(self) -> Seq<u8> {
        bytes_of(self.im)
    }

    /// The number of spectra.
    pub closed spec fn frames(self) -> nat {
        self.n_frames as nat
    }

    /// The number of frequencies.
    pub closed spec fn freqs(self) -> nat {
        self.n_freqs as nat
    }

    /// The image has a row per spectrum and a pixel of four bytes per frequency.
    pub closed spec fn wf(self) -> bool {
        &&& width_of(self.im) == self.n_freqs
        &&& height_of(self.im) == self.n_frames
        &&& bytes_of(self.im).len() == 4 * (self.n_freqs * self.n_frames)
        &&& 4 * (self.n_freqs * self.n_frames) <= isize::MAX
        &&& 4 * self.n_freqs <= usize::MAX
        &&& 4 * self.n_frames <= usize::MAX
    }

    /// A spectrogram of zeros.
    pub fn new(n_frames: u32, n_freqs: u32) -> (s: SpecImage)
        requires
            4 * n_freqs <= usize::MAX,
            4 * n_frames <= usize::MAX,
            4 * (n_freqs * n_frames) <= isize::MAX,
        ensures
            s.wf(),
            s.frames() == n_frames,
            s.freqs() == n_freqs,
            s.bytes() == Seq::new((4 * (n_freqs * n_frames)) as nat, |b: int| 0u8),
    {
        SpecImage { im: blank(n_freqs, n_frames), n_frames, n_freqs }
    }

    /// The number of spectra.
    pub fn w(&self) -> (w: usize)
        ensures
            w == self.frames(),
    {
        self.n_frames as usize
    }

    /// The number of frequencies.
    pub fn h(&self) -> (h: usize)
        ensures
            h == self.freqs(),
    {
        self.n_freqs as usize
    }

    /// The number of rows by which an update with `n_specs` spectra scrolls: at least one row
    /// stays.
    pub open spec fn scroll(self, n_specs: nat) -> nat {
        if n_specs > 0 && n_specs >= self.frames() {
            (self.frames() - 1) as nat
        } else {
            n_specs
        }
    }

    /// The bytes of the image after an update: up to as many spectra as it scrolls by are painted
    /// over the first rows, and the rows behind all but that many come to the front.
    pub open spec fn updated(
        self,
        specs: Seq<Vec<u8>>,
        n_specs: nat,
        palette: Seq<[u8; 4]>,
    ) -> Seq<u8> {
        if n_specs == 0 {
            self.bytes()
        } else {
            let n = self.scroll(n_specs);
            let m = if specs.len() < n {
                specs.len()
            } else {
                n
            };
            let fresh = painted(
                self.bytes(),
                self.freqs(),
                specs,
                palette,
                m,
                (m * self.freqs()) as int,
            );
            let mid = 4 * ((self.frames() - n) * self.freqs());
            fresh.skip(mid) + fresh.take(mid)
        }
    }

    /// The number of spectra that an update with `n_specs` of them shows.
    pub fn shown(&self, n_specs: usize) -> (n: usize)
        requires
            n_specs > 0 ==> self.frames() > 0,
        ensures
            n == self.scroll(n_specs as nat),
    {
        let w: usize = self.w();
        if n_specs > 0 && n_specs >= w {
            w - 1
        } else {
            n_specs
        }
    }

    /// Paints up to `n_specs` spectra, given as positions in a palette, over the first rows, and
    /// scrolls so that as many rows come to stand in front of them.
    pub fn update(&mut self, specs: &Vec<Vec<u8>>, n_specs: usize, palette: &Vec<[u8; 4]>)
        requires
            old(self).wf(),
            n_specs > 0 ==> old(self).frames() > 0,
            palette@.len() == 256,
        ensures
            final(self).wf(),
            final(self).frames() == old(self).frames(),
            final(self).freqs() == old(self).freqs(),
            final(self).bytes() == old(self).updated(specs@, n_specs as nat, palette@),
    {
        if n_specs == 0 {
            return;
        }
        let w: usize = self.w();
        let h: usize = self.h();
        let n: usize = self.shown(n_specs);
        let m: usize = if specs.len() < n {
            specs.len()
        } else {
            n
        };
        let ghost start = self.bytes();
        assert(self.bytes() =~= painted(start, h as nat, specs@, palette@, m as nat, 0)) by {
            assert forall|p: int| 0 <= p implies !is_painted(p, h as nat, specs@, m as nat, 0) by {}
        }
        let mut r: usize = 0;
        while r < m
            invariant
                r <= m,
                m <= specs@.len(),
                m <= n < w,
                palette@.len() == 256,
                self.wf(),
                self.frames() == w,
                self.freqs() == h,
                start.len() == 4 * (h * w),
                self.bytes() == painted(start, h as nat, specs@, palette@, m as nat, r * h),
            decreases m - r,
        {
            let row: &Vec<u8> = &specs[r];
            let mut c: usize = 0;
            while c < h && c < row.len()
                invariant
                    c <= h,
                    c <= row@.len(),
                    r < m,
                    m <= specs@.len(),
                    m <= n < w,
                    row@ == specs@[r as int]@,
                    palette@.len() == 256,
                    self.wf(),
                    self.frames() == w,
                    self.freqs() == h,
                    start.len() == 4 * (h * w),
                    self.bytes() == painted(start, h as nat, specs@, palette@, m as nat, r * h + c),
                decreases h - c,
            {
                let color: [u8; 4] = palette[row[c] as usize];
                let ghost before = self.bytes();
                paint(&mut self.im, c as u32, r as u32, color);
                proof {
                    let at = r * h + c;
                    lemma_fundamental_div_mod_converse(at, h as int, r as int, c as int);
                    assert forall|b: int| 0 <= b < start.len() implies self.bytes()[b] == painted(
                        start,
                        h as nat,
                        specs@,
                        palette@,
                        m as nat,
                        at + 1,
                    )[b] by {
                        let p = b / 4;
                        assert(pixel_start(h as nat, c as nat, r as nat) == 4 * at);
                        if p == at {
                            assert(b - 4 * at == b % 4);
                        }
                    }
                    assert(self.bytes() =~= painted(
                        start,
                        h as nat,
                        specs@,
                        palette@,
                        m as nat,
                        at + 1,
                    ));
                }
                c = c + 1;
            }
            proof {
                lemma_row_done(start, h as nat, specs@, palette@, m as nat, r as int, c as int);
            }
            r = r + 1;
        }
        proof {
            let a = (w - n) as int;
            let hh = h as int;
            let ww = w as int;
            assert(0 <= a * hh <= hh * ww && (a * 4) * hh == 4 * (a * hh)) by (nonlinear_arith)
                requires
                    0 <= a <= ww,
                    hh >= 0,
            ;
            assert(a * 4 <= 4 * (a * hh) || hh == 0) by (nonlinear_arith)
                requires
                    a >= 0,
                    hh >= 0,
            ;
        }
        rotate(&mut self.im, (w - n) * 4 * h);
    }

    /// The image for display: time runs to the right, frequency upwards.
    pub fn image_data(&self) -> (bytes: Vec<u8>)
        requires
            self.wf(),
        ensures
            bytes@ == turned(self.bytes(), self.freqs(), self.frames()),
    {
        turn(&self.im)
    }
}

proof fn lemma_row_done(
    start: Seq<u8>,
    h: nat,
    specs: Seq<Vec<u8>>,
    palette: Seq<[u8; 4]>,
    m: nat,
    r: int,
    c: int,
)
    requires
        0 <= r < m <= specs.len(),
        0 <= c <= h,
        c == h || c == specs[r]@.len(),
    ensures
        painted(start, h, specs, palette, m, r * h + c) == painted(
            start,
            h,
            specs,
            palette,
            m,
            (r + 1) * h,
        ),
{
    let hh = h as int;
    assert((r + 1) * hh == r * hh + hh) by (nonlinear_arith);
    let here = r * hh + c;
    let there = (r + 1) * hh;
    assert forall|p: int| 0 <= p implies is_painted(p, h, specs, m, here) == is_painted(
        p,
        h,
        specs,
        m,
        there,
    ) by {
        if r * hh + c <= p < r * hh + hh {
            lemma_fundamental_div_mod_converse(p, hh, r, p - r * hh);
        }
    }
    assert(painted(start, h, specs, palette, m, r * h + c) =~= painted(
        start,
        h,
        specs,
        palette,
        m,
        (r + 1) * h,
    ));
}

/// The image of a spectrogram has a row per spectrum and a pixel of four bytes per frequency.
pub proof fn law_image_size(s: SpecImage)
    requires
        s.wf(),
    ensures
        s.bytes().len() == 4 * (s.freqs() * s.frames()),
{
}

/// A row of an image.
pub open spec fn row_of(bytes: Seq<u8>, width: nat, r: int) -> Seq<u8> {
    bytes.subrange(r * (4 * width), (r + 1) * (4 * width))
}

/// An update scrolls: rotating the bytes by all but `n` rows moves every row down by `n`, and the
/// last `n` rows to the front, unchanged.
pub proof fn law_rows_scroll(bytes: Seq<u8>, width: nat, height: nat, n: nat, r: int)
    requires
        bytes.len() == 4 * (width * height),
        n < height,
        0 <= r < height,
    ensures
        ({
            let mid = 4 * ((height - n) * width);
            let scrolled = bytes.skip(mid) + bytes.take(mid);
            let to = if r + n < height {
                r + n
            } else {
                r + n - height
            };
            row_of(scrolled, width, to) == row_of(bytes, width, r)
        }),
{
    let k = 4 * width as int;
    let hh = height as int;
    let nn = n as int;
    let mid = 4 * ((height - n) * width);
    let scrolled = bytes.skip(mid) + bytes.take(mid);
    assert(mid == (hh - nn) * k) by (nonlinear_arith)
        requires
            mid == 4 * ((hh - nn) * width),
            k == 4 * width,
    ;
    assert(bytes.len() == hh * k) by (nonlinear_arith)
        requires
            bytes.len() == 4 * (width * hh),
            k == 4 * width,
    ;
    let to = if r + n < height {
        r + nn
    } else {
        r + nn - hh
    };
    assert(0 <= r * k <= (r + 1) * k <= hh * k) by (nonlinear_arith)
        requires
            0 <= r < hh,
            k >= 0,
    ;
    assert(0 <= to * k <= (to + 1) * k <= hh * k) by (nonlinear_arith)
        requires
            0 <= to < hh,
            k >= 0,
    ;
    assert(0 <= (hh - nn) * k <= hh * k) by (nonlinear_arith)
        requires
            0 <= nn <= hh,
            k >= 0,
    ;
    assert((r + 1) * k - r * k == k && (to + 1) * k - to * k == k) by (nonlinear_arith);
    if r + n < height {
        assert(to * k == nn * k + r * k && hh * k - (hh - nn) * k == nn * k) by (nonlinear_arith)
            requires
                to == r + nn,
        ;
        assert((r + 1) * k <= (hh - nn) * k) by (nonlinear_arith)
            requires
                r + 1 <= hh - nn,
                k >= 0,
        ;
    } else {
        assert(r * k == (hh - nn) * k + to * k) by (nonlinear_arith)
            requires
                to == r + nn - hh,
        ;
        assert((to + 1) * k <= nn * k && hh * k - (hh - nn) * k == nn * k) by (nonlinear_arith)
            requires
                to + 1 <= nn,
                k >= 0,
        ;
    }
    let a = row_of(scrolled, width, to);
    let b = row_of(bytes, width, r);
    assert(a.len() == k && b.len() == k);
    assert forall|i: int| 0 <= i < k implies a[i] == b[i] by {
        assert(a[i] == scrolled[to * k + i]);
        assert(b[i] == bytes[r * k + i]);
    }
    assert(a =~= b);
}

/// An update shows what it is given: once the image has scrolled by `n` rows, the pixel of
/// frequency `x` in the row of the spectrum numbered `r` has the color of its value.
pub proof fn law_update_shows_spectra(
    bytes: Seq<u8>,
    width: nat,
    height: nat,
    specs: Seq<Vec<u8>>,
    palette: Seq<[u8; 4]>,
    m: nat,
    n: nat,
    r: nat,
    x: nat,
    k: int,
)
    requires
        bytes.len() == 4 * (width * height),
        r < m <= n < height,
        x < width,
        x < specs[r as int]@.len(),
        0 <= k < 4,
    ensures
        ({
            let fresh = painted(bytes, width, specs, palette, m, (m * width) as int);
            let mid = 4 * ((height - n) * width);
            let scrolled = fresh.skip(mid) + fresh.take(mid);
            let to = if r + n < height {
                r + n
            } else {
                (r + n - height) as nat
            };
            scrolled[pixel_start(width, x, to) + k] == palette[specs[r as int]@[x as int] as int]@[k]
        }),
{
    let fresh = painted(bytes, width, specs, palette, m, (m * width) as int);
    let mid = 4 * ((height - n) * width);
    let scrolled = fresh.skip(mid) + fresh.take(mid);
    let to = if r + n < height {
        r + n
    } else {
        (r + n - height) as nat
    };
    law_rows_scroll(fresh, width, height, n, r as int);
    let w = width as int;
    let h = height as int;
    let j = 4 * x + k;
    let p = r * w + x;
    lemma_fundamental_div_mod_converse(p, w, r as int, x as int);
    assert(p < m * w && r * (4 * w) == 4 * (r * w) && to * (4 * w) == 4 * (to * w)) by (nonlinear_arith)
        requires
            p == r * w + x,
            r < m,
            x < w,
    ;
    assert((r + 1) * (4 * w) == r * (4 * w) + 4 * w && (to + 1) * (4 * w) == to * (4 * w) + 4 * w)
        by (nonlinear_arith);
    assert(0 <= (r + 1) * (4 * w) <= 4 * (w * h) && 0 <= (to + 1) * (4 * w) <= 4 * (w * h))
        by (nonlinear_arith)
        requires
            r + 1 <= h,
            to + 1 <= h,
            w >= 0,
    ;
    assert(0 <= (h - n) * w <= w * h) by (nonlinear_arith)
        requires
            0 <= h - n <= h,
            w >= 0,
    ;
    assert(row_of(fresh, width, r as int)[j] == fresh[4 * p + k]);
    assert(row_of(scrolled, width, to as int)[j] == scrolled[pixel_start(width, x, to) + k]);
    assert((4 * p + k) / 4 == p && (4 * p + k) % 4 == k);
    assert(is_painted(p, width, specs, m, (m * width) as int));
}

/// Spectra beyond those that an update shows have no part in it: with too many of them the image
/// is that of an update with one less than it has rows, and without any it stays.
pub proof fn law_excess_spectra_are_left_out(
    s: SpecImage,
    specs: Seq<Vec<u8>>,
    n_specs: nat,
    palette: Seq<[u8; 4]>,
)
    requires
        s.wf(),
        s.frames() >= 1,
    ensures
        s.updated(specs, 0, palette) == s.bytes(),
        n_specs >= s.frames() ==> s.updated(specs, n_specs, palette) == s.updated(
            specs,
            (s.frames() - 1) as nat,
            palette,
        ),
        specs.len() >= s.scroll(n_specs) ==> s.updated(specs, n_specs, palette) == s.updated(
            specs.take(s.scroll(n_specs) as int),
            n_specs,
            palette,
        ),
{
    let bytes = s.bytes();
    let w = s.freqs();
    let n = s.scroll(n_specs);
    if n_specs >= s.frames() && s.frames() == 1 {
        let none = (0 * w) as int;
        assert(none == 0) by (nonlinear_arith)
            requires
                none == 0 * w,
        ;
        let fresh = painted(bytes, w, specs, palette, 0, none);
        assert(fresh =~= bytes) by {
            assert forall|p: int| 0 <= p implies !is_painted(p, w, specs, 0, none) by {}
        }
        let h = s.frames() as int;
        assert(4 * ((h - 0) * w) == 4 * (w * h)) by (nonlinear_arith);
        assert(fresh.skip(bytes.len() as int) + fresh.take(bytes.len() as int) =~= bytes);
    }
    if n_specs > 0 && specs.len() >= n {
        let fewer = specs.take(n as int);
        let upto = (n * w) as int;
        assert(w == 0 ==> upto == 0) by (nonlinear_arith)
            requires
                upto == n * w,
        ;
        assert forall|p: int| 0 <= p implies is_painted(p, w, specs, n, upto) == is_painted(
            p,
            w,
            fewer,
            n,
            upto,
        ) by {
            if w > 0 {
                lemma_div_pos_is_pos(p, w as int);
            }
        }
        assert forall|b: int| 0 <= b < bytes.len() implies painted(
            bytes,
            w,
            specs,
            palette,
            n,
            upto,
        )[b] == painted(bytes, w, fewer, palette, n, upto)[b] by {
            if w > 0 {
                lemma_div_pos_is_pos(b / 4, w as int);
            }
        }
        assert(painted(bytes, w, specs, palette, n, upto) =~= painted(
            bytes,
            w,
            fewer,
            palette,
            n,
            upto,
        ));
    }
}

/// An old row survives every update: the row behind those that are painted over last is among
/// those that scroll, unchanged.
pub proof fn law_old_row_survives(
    s: SpecImage,
    specs: Seq<Vec<u8>>,
    n_specs: nat,
    palette: Seq<[u8; 4]>,
)
    requires
        s.wf(),
        s.frames() >= 1,
    ensures
        exists|to: int|
            0 <= to < s.frames() && #[trigger] row_of(
                s.updated(specs, n_specs, palette),
                s.freqs(),
                to,
            ) == row_of(s.bytes(), s.freqs(), s.frames() - 1),
{
    let bytes = s.bytes();
    let w = s.freqs();
    let h = s.frames();
    let last = h - 1;
    if n_specs == 0 {
        assert(row_of(s.updated(specs, n_specs, palette), w, last) == row_of(bytes, w, last));
    } else {
        let n = s.scroll(n_specs);
        let m = if specs.len() < n {
            specs.len()
        } else {
            n
        };
        let fresh = painted(bytes, w, specs, palette, m, (m * w) as int);
        law_painting_keeps_other_rows(bytes, w, h, specs, palette, m, last);
        law_rows_scroll(fresh, w, h, n, last);
        let to = if last + n < h {
            last + n
        } else {
            last + n - h
        };
        assert(row_of(s.updated(specs, n_specs, palette), w, to) == row_of(bytes, w, last));
    }
}

/// Painting leaves the rows behind the painted ones as they are.
pub proof fn law_painting_keeps_other_rows(
    bytes: Seq<u8>,
    width: nat,
    height: nat,
    specs: Seq<Vec<u8>>,
    palette: Seq<[u8; 4]>,
    m: nat,
    r: int,
)
    requires
        bytes.len() == 4 * (width * height),
        m <= r < height,
    ensures
        row_of(painted(bytes, width, specs, palette, m, (m * width) as int), width, r) == row_of(
            bytes,
            width,
            r,
        ),
{
    let k = 4 * width as int;
    let hh = height as int;
    let mm = m as int;
    assert(bytes.len() == hh * k) by (nonlinear_arith)
        requires
            bytes.len() == 4 * (width * hh),
            k == 4 * width,
    ;
    assert(0 <= r * k <= (r + 1) * k <= hh * k) by (nonlinear_arith)
        requires
            0 <= r < hh,
            k >= 0,
    ;
    assert(mm * k <= r * k && mm * k == 4 * (mm * width)) by (nonlinear_arith)
        requires
            mm <= r,
            k == 4 * width,
    ;
    let fresh = painted(bytes, width, specs, palette, m, (m * width) as int);
    assert(row_of(fresh, width, r) =~= row_of(bytes, width, r));
}

/// Turning an image moves the pixel in column `x` of row `y` to column `y`, counted from the left,
/// of row `x`, counted from the bottom.
pub proof fn law_turned_pixel(bytes: Seq<u8>, width: nat, height: nat, x: nat, y: nat, k: int)
    requires
        bytes.len() == 4 * (width * height),
        x < width,
        y < height,
        0 <= k < 4,
    ensures
        turned(bytes, width, height)[pixel_start(height, y, (width - 1 - x) as nat) + k]
            == bytes[pixel_start(width, x, y) + k],
{
    let row = width - 1 - x;
    let p = row * height + y;
    let b = 4 * p + k;
    let w = width as int;
    let h = height as int;
    lemma_fundamental_div_mod_converse(p, h, row, y as int);
    assert(0 <= p < w * h) by (nonlinear_arith)
        requires
            p == row * h + y,
            0 <= row < w,
            0 <= y < h,
    ;
    assert(b / 4 == p && b % 4 == k);
    assert(pixel_start(height, y, row as nat) + k == b);
}

/// What an update does to every pixel. With `n` the number of spectra, but at most one less than the
/// image has rows, the pixel of frequency `x` in row `r` comes to stand `n` rows further down, and
/// from the last row on at the front. There it has the color of its value, if row `r` is among the
/// first `n` and its spectrum has a value for it, and is unchanged otherwise.
pub proof fn law_update_by_pixel(
    s: SpecImage,
    specs: Seq<Vec<u8>>,
    n_specs: nat,
    palette: Seq<[u8; 4]>,
    r: nat,
    x: nat,
    k: int,
)
    requires
        s.wf(),
        n_specs > 0,
        r < s.frames(),
        x < s.freqs(),
        0 <= k < 4,
    ensures
        s.updated(specs, n_specs, palette).len() == s.bytes().len(),
        ({
            let n = if n_specs < s.frames() {
                n_specs as int
            } else {
                s.frames() - 1
            };
            let to = if r + n < s.frames() {
                r + n
            } else {
                r + n - s.frames()
            };
            s.updated(specs, n_specs, palette)[4 * (to * s.freqs() + x) + k] == if r < n && r
                < specs.len() && x < specs[r as int]@.len() {
                palette[specs[r as int]@[x as int] as int]@[k]
            } else {
                s.bytes()[4 * (r * s.freqs() + x) + k]
            }
        }),
{
    let bytes = s.bytes();
    let width = s.freqs();
    let height = s.frames();
    let n = s.scroll(n_specs);
    let m = if specs.len() < n {
        specs.len()
    } else {
        n
    };
    let fresh = painted(bytes, width, specs, palette, m, (m * width) as int);
    let mid = 4 * ((height - n) * width);
    let scrolled = fresh.skip(mid) + fresh.take(mid);
    let to = if r + n < height {
        r + n
    } else {
        (r + n - height) as nat
    };
    law_rows_scroll(fresh, width, height, n, r as int);
    let w = width as int;
    let h = height as int;
    let j = 4 * x + k;
    let p = r * w + x;
    lemma_fundamental_div_mod_converse(p, w, r as int, x as int);
    assert(0 <= (h - n) * w <= w * h) by (nonlinear_arith)
        requires
            0 <= h - n <= h,
            w >= 0,
    ;
    assert((p < m * w <==> r < m) && r * (4 * w) == 4 * (r * w) && to * (4 * w) == 4 * (to * w))
        by (nonlinear_arith)
        requires
            p == r * w + x,
            0 <= x < w,
    ;
    assert((r + 1) * (4 * w) == r * (4 * w) + 4 * w && (to + 1) * (4 * w) == to * (4 * w) + 4 * w)
        by (nonlinear_arith);
    assert(0 <= (r + 1) * (4 * w) <= 4 * (w * h) && 0 <= (to + 1) * (4 * w) <= 4 * (w * h) && 0 <= r
        * w && 0 <= to * w) by (nonlinear_arith)
        requires
            0 <= r && r + 1 <= h,
            0 <= to && to + 1 <= h,
            w >= 0,
    ;
    assert(row_of(fresh, width, r as int)[j] == fresh[4 * p + k]);
    assert(row_of(scrolled, width, to as int)[j] == scrolled[4 * (to * w + x) + k]);
    assert((4 * p + k) / 4 == p && (4 * p + k) % 4 == k);
}

/// Turning an image keeps its size, and a pixel starts where its row and its column have it.
pub proof fn law_turning_keeps_size(bytes: Seq<u8>, width: nat, height: nat, x: nat, y: nat)
    ensures
        turned(bytes, width, height).len() == bytes.len(),
        pixel_start(width, x, y) == 4 * (y * width + x),
{
}

} // verus!
