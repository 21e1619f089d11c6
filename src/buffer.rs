//! Row-major RGB pixel buffers and the writes that fill them.
//!
//! A frame of `width x height` pixels is stored as `3 * width * height` bytes;
//! pixel `(x, y)` occupies the three bytes starting at `3 * (y * width + x)`.
//! Row `y` is the contiguous band `[3 * width * y, 3 * width * (y + 1))`, so
//! rows can be handed to different workers without overlapping.
use vstd::prelude::*;

verus! {

/// One pixel: red, green and blue channels.
#[derive(Clone, Copy, Debug, PartialEq, Eq, Structural)]
pub struct Rgb {
    pub r: u8,
    pub g: u8,
    pub b: u8,
}

/// Channel `k` (0 red, 1 green, 2 blue) of a pixel.
pub open spec fn channel(c: Rgb, k: int) -> u8 {
    if k == 0 {
        c.r
    } else if k == 1 {
        c.g
    } else {
        c.b
    }
}

/// The bytes of a row of pixels, three per pixel.
pub open spec fn row_bytes(row: Seq<Rgb>) -> Seq<u8> {
    Seq::new((3 * row.len()) as nat, |i: int| channel(row[i / 3], i % 3))
}

/// Offset of the first byte of row `y` in a buffer `width` pixels wide.
pub open spec fn row_start(width: nat, y: nat) -> nat {
    3 * width * y
}

/// Offset of the first byte of pixel `(x, y)`.
pub open spec fn pixel_start(width: nat, x: nat, y: nat) -> int {
    3 * (width * y + x) as int
}

/// `data` with row `y` replaced by the bytes of `row`.
pub open spec fn with_row(data: Seq<u8>, width: nat, y: nat, row: Seq<Rgb>) -> Seq<u8> {
    data.subrange(0, row_start(width, y) as int) + row_bytes(row) + data.subrange(
        row_start(width, y + 1) as int,
        data.len() as int,
    )
}

/// The bytes of a whole frame, rows top to bottom.
pub open spec fn frame_bytes(rows: Seq<Seq<Rgb>>) -> Seq<u8>
    decreases rows.len(),
{
    if rows.len() == 0 {
        Seq::empty()
    } else {
        frame_bytes(rows.drop_last()) + row_bytes(rows.last())
    }
}

/// Bytes of row `y` in a buffer `width` pixels wide.
pub open spec fn band(data: Seq<u8>, width: nat, y: nat) -> Seq<u8> {
    data.subrange(row_start(width, y) as int, row_start(width, y + 1) as int)
}

/// Every row holds `width` pixels.
pub open spec fn rows_have_width(rows: Seq<Seq<Rgb>>, width: nat) -> bool {
    forall|y: int| 0 <= y < rows.len() ==> (#[trigger] rows[y]).len() == width
}

/// The pixel rows held by a vector of rows.
pub open spec fn rows_view(rows: Seq<Vec<Rgb>>) -> Seq<Seq<Rgb>> {
    rows.map_values(|row: Vec<Rgb>| row@)
}

/// Keeps the colour channels of an RGBA quadruple and drops the alpha.
pub fn rgb_from_rgba(rgba: [u8; 4]) -> (c: Rgb)
    ensures
        c.r == rgba@[0],
        c.g == rgba@[1],
        c.b == rgba@[2],
{
    Rgb { r: rgba[0], g: rgba[1], b: rgba[2] }
}

/// Writes a row of pixels into a band of bytes that holds exactly that row.
pub fn write_row_band(band: &mut [u8], row: &Vec<Rgb>)
    requires
        old(band)@.len() == 3 * row@.len(),
    ensures
        final(band)@ == row_bytes(row@),
{
    let n = row.len();
    let len = band.len();
    let mut x: usize = 0;
    while x < n
        invariant
            n == row@.len(),
            band@.len() == 3 * n,
            band@.len() == len,
            x <= n,
            forall|i: int| 0 <= i < 3 * x ==> #[trigger] band@[i] == row_bytes(row@)[i],
        decreases n - x,
    {
        let c = row[x];
        band[3 * x] = c.r;
        band[3 * x + 1] = c.g;
        band[3 * x + 2] = c.b;
        assert forall|i: int| 0 <= i < 3 * (x + 1) implies #[trigger] band@[i] == row_bytes(
            row@,
        )[i] by {
            if i >= 3 * x {
                assert(i / 3 == x as int);
            }
        }
        x += 1;
    }
    assert(band@ =~= row_bytes(row@));
}

/// A frame buffer of `width x height` RGB pixels in row-major order.
pub struct PixelBuffer {
    width: u32,
    height: u32,
    data: Vec<u8>,
}

impl PixelBuffer {
    /// The buffer's bytes.
    pub closed spec fn bytes(&self) -> Seq<u8> {
        self.data@
    }

    pub closed spec fn spec_width(&self) -> nat {
        self.width as nat
    }

    pub closed spec fn spec_height(&self) -> nat {
        self.height as nat
    }

    /// The byte count matches the dimensions.
    pub closed spec fn wf(&self) -> bool {
        self.data@.len() == 3 * self.width * self.height
    }

    /// A black buffer (every byte 0) of the given dimensions.
    pub fn new(width: u32, height: u32) -> (r: PixelBuffer)
        requires
            3 * width * height <= usize::MAX,
        ensures
            r.wf(),
            r.spec_width() == width,
            r.spec_height() == height,
            r.bytes() == Seq::new((3 * width * height) as nat, |i: int| 0u8),
    {
        proof {
            assert(width * height <= 3 * width * height) by (nonlinear_arith);
            assert(3 * width * height == 3 * (width * height)) by (nonlinear_arith);
        }
        let n: usize = 3 * ((width as usize) * (height as usize));
        let mut data: Vec<u8> = Vec::with_capacity(n);
        let mut i: usize = 0;
        while i < n
            invariant
                i <= n,
                data@.len() == i,
                forall|j: int| 0 <= j < i ==> #[trigger] data@[j] == 0u8,
            decreases n - i,
        {
            data.push(0u8);
            i += 1;
        }
        let r = PixelBuffer { width, height, data };
        assert(r.bytes() =~= Seq::new((3 * width * height) as nat, |i: int| 0u8));
        r
    }

    pub fn width(&self) -> (r: u32)
        ensures
            r == self.spec_width(),
    {
        self.width
    }

    pub fn height(&self) -> (r: u32)
        ensures
            r == self.spec_height(),
    {
        self.height
    }

    /// The buffer's bytes, row-major, three per pixel.
    pub fn as_bytes(&self) -> (r: &[u8])
        ensures
            r@ == self.bytes(),
    {
        self.data.as_slice()
    }

    /// Gives up the buffer and returns its bytes.
    pub fn into_bytes(self) -> (r: Vec<u8>)
        ensures
            r@ == self.bytes(),
    {
        self.data
    }

    /// Assembles a frame from its rows of pixels, top to bottom.
    pub fn from_rows(width: u32, height: u32, rows: &Vec<Vec<Rgb>>) -> (r: PixelBuffer)
        requires
            3 * width * height <= usize::MAX,
            rows@.len() == height,
            rows_have_width(rows_view(rows@), width as nat),
        ensures
            r.wf(),
            r.spec_width() == width,
            r.spec_height() == height,
            r.bytes() == frame_bytes(rows_view(rows@)),
    {
        let mut buf = PixelBuffer::new(width, height);
        let ghost view = rows_view(rows@);
        let mut y: u32 = 0;
        while y < height
            invariant
                buf.wf(),
                buf.spec_width() == width,
                buf.spec_height() == height,
                view == rows_view(rows@),
                view.len() == height,
                rows_have_width(view, width as nat),
                y <= height,
                forall|y2: nat| y2 < y ==> #[trigger] band(buf.bytes(), width as nat, y2)
                    == row_bytes(view[y2 as int]),
            decreases height - y,
        {
            let ghost before = buf.bytes();
            assert(view[y as int] == rows@[y as int]@);
            buf.put_row(y, &rows[y as usize]);
            proof {
                assert forall|y2: nat| y2 < y + 1 implies #[trigger] band(
                    buf.bytes(),
                    width as nat,
                    y2,
                ) == row_bytes(view[y2 as int]) by {
                    lemma_with_row_band(
                        before,
                        width as nat,
                        height as nat,
                        y as nat,
                        view[y as int],
                        y2,
                    );
                }
            }
            y += 1;
        }
        proof {
            lemma_bands_form_frame(buf.bytes(), width as nat, view);
        }
        buf
    }

    /// Sets pixel `(x, y)`; every other byte keeps its value.
    pub fn put_pixel(&mut self, x: u32, y: u32, c: Rgb)
        requires
            old(self).wf(),
            x < old(self).spec_width(),
            y < old(self).spec_height(),
        ensures
            final(self).wf(),
            final(self).spec_width() == old(self).spec_width(),
            final(self).spec_height() == old(self).spec_height(),
            final(self).bytes() == old(self).bytes().update(
                pixel_start(old(self).spec_width(), x as nat, y as nat),
                c.r,
            ).update(pixel_start(old(self).spec_width(), x as nat, y as nat) + 1, c.g).update(
                pixel_start(old(self).spec_width(), x as nat, y as nat) + 2,
                c.b,
            ),
    {
        proof {
            lemma_pixel_in_frame(self.width as nat, self.height as nat, x as nat, y as nat);
        }
        let len = self.data.len();
        let base: usize = 3 * ((self.width as usize) * (y as usize) + (x as usize));
        self.data.set(base, c.r);
        self.data.set(base + 1, c.g);
        self.data.set(base + 2, c.b);
    }

    /// Replaces row `y` with `row`; every other row keeps its bytes.
    pub fn put_row(&mut self, y: u32, row: &Vec<Rgb>)
        requires
            old(self).wf(),
            y < old(self).spec_height(),
            row@.len() == old(self).spec_width(),
        ensures
            final(self).wf(),
            final(self).spec_width() == old(self).spec_width(),
            final(self).spec_height() == old(self).spec_height(),
            final(self).bytes() == with_row(
                old(self).bytes(),
                old(self).spec_width(),
                y as nat,
                row@,
            ),
    {
        let w = self.width as usize;
        proof {
            lemma_row_in_frame(self.width as nat, self.height as nat, y as nat);
        }
        let len = self.data.len();
        let start: usize = 3 * (w * (y as usize));
        let ghost before = self.data@;
        let mut x: usize = 0;
        while x < w
            invariant
                w == self.width,
                w == row@.len(),
                start == row_start(w as nat, y as nat),
                start + 3 * w <= self.data@.len(),
                self.data@.len() == before.len(),
                self.data@.len() == len,
                self.width == old(self).width,
                self.height == old(self).height,
                x <= w,
                forall|i: int|
                    0 <= i < start || start + 3 * w <= i < before.len() ==> #[trigger] self.data@[i]
                        == before[i],
                forall|i: int|
                    0 <= i < 3 * x ==> #[trigger] self.data@[start + i] == row_bytes(row@)[i],
            decreases w - x,
        {
            let c = row[x];
            self.data.set(start + 3 * x, c.r);
            self.data.set(start + 3 * x + 1, c.g);
            self.data.set(start + 3 * x + 2, c.b);
            assert forall|i: int| 0 <= i < 3 * (x + 1) implies #[trigger] self.data@[start + i]
                == row_bytes(row@)[i] by {
                if i >= 3 * x {
                    assert(i / 3 == x as int);
                }
            }
            x += 1;
        }
        assert(self.data@ =~= with_row(before, w as nat, y as nat, row@)) by {
            assert forall|i: int| start <= i < start + 3 * w implies self.data@[i] == row_bytes(
                row@,
            )[i - start] by {
                assert(self.data@[start + (i - start)] == row_bytes(row@)[i - start]);
            }
        }
    }
}

proof fn lemma_row_start_monotone(width: nat, y1: nat, y2: nat)
    requires
        y1 <= y2,
    ensures
        row_start(width, y1) <= row_start(width, y2),
        row_start(width, y1 + 1) == row_start(width, y1) + 3 * width,
{
    assert(3 * width * y1 <= 3 * width * y2) by (nonlinear_arith)
        requires
            y1 <= y2,
    ;
    assert(3 * width * (y1 + 1) == 3 * width * y1 + 3 * width) by (nonlinear_arith);
}

/// Writing a row through `with_row` sets that row's band to the row's bytes
/// and leaves every other band as it was.
pub proof fn lemma_with_row_band(
    data: Seq<u8>,
    width: nat,
    height: nat,
    y: nat,
    row: Seq<Rgb>,
    y2: nat,
)
    requires
        data.len() == 3 * width * height,
        y < height,
        y2 < height,
        row.len() == width,
    ensures
        band(with_row(data, width, y, row), width, y2) == if y2 == y {
            row_bytes(row)
        } else {
            band(data, width, y2)
        },
{
    lemma_row_in_frame(width, height, y);
    lemma_row_in_frame(width, height, y2);
    let d = with_row(data, width, y, row);
    assert(d.len() == data.len());
    if y2 == y {
        assert(band(d, width, y2) =~= row_bytes(row));
    } else if y2 < y {
        lemma_row_start_monotone(width, y2 + 1, y);
        assert(band(d, width, y2) =~= band(data, width, y2));
    } else {
        lemma_row_start_monotone(width, y + 1, y2);
        assert(band(d, width, y2) =~= band(data, width, y2));
    }
}

/// However a frame was filled (pixel by pixel, row by row in any order, or by
/// workers that each own one row's band), a buffer whose every band holds the
/// bytes of the matching row is exactly the frame of those rows.
pub proof fn lemma_bands_form_frame(data: Seq<u8>, width: nat, rows: Seq<Seq<Rgb>>)
    requires
        rows_have_width(rows, width),
        data.len() == 3 * width * rows.len(),
        forall|y: nat| y < rows.len() ==> #[trigger] band(data, width, y) == row_bytes(rows[y as int]),
    ensures
        data == frame_bytes(rows),
    decreases rows.len(),
{
    if rows.len() == 0 {
        assert(data =~= Seq::<u8>::empty());
    } else {
        let n = (rows.len() - 1) as nat;
        lemma_row_start_monotone(width, n, n);
        let pre = data.subrange(0, row_start(width, n) as int);
        let rest = rows.drop_last();
        assert forall|y: nat| y < rest.len() implies #[trigger] band(pre, width, y) == row_bytes(
            rest[y as int],
        ) by {
            lemma_row_start_monotone(width, y + 1, n);
            lemma_row_start_monotone(width, y, y);
            assert(band(pre, width, y) =~= band(data, width, y));
        }
        lemma_bands_form_frame(pre, width, rest);
        assert(band(data, width, n) == row_bytes(rows[n as int]));
        assert(data =~= pre + band(data, width, n));
    }
}

proof fn lemma_pixel_in_frame(width: nat, height: nat, x: nat, y: nat)
    requires
        x < width,
        y < height,
    ensures
        width * y + x < width * height,
        3 * width * height == 3 * (width * height),
        pixel_start(width, x, y) + 3 <= 3 * width * height,
{
    assert(width * y + x + 1 <= width * height) by (nonlinear_arith)
        requires
            x < width,
            y < height,
    ;
    assert(3 * width * height == 3 * (width * height)) by (nonlinear_arith);
}

proof fn lemma_row_in_frame(width: nat, height: nat, y: nat)
    requires
        y < height,
    ensures
        row_start(width, y) + 3 * width <= 3 * width * height,
        row_start(width, y + 1) == row_start(width, y) + 3 * width,
        width * y <= row_start(width, y),
        3 * (width * y) == row_start(width, y),
{
    assert(3 * (width * y) == 3 * width * y) by (nonlinear_arith);
    assert(3 * width * y + 3 * width <= 3 * width * height) by (nonlinear_arith)
        requires
            y < height,
    ;
    assert(3 * width * (y + 1) == 3 * width * y + 3 * width) by (nonlinear_arith);
}

} // verus!
