//! A decoded video, and the cutting of a range of its pixels into rows.

use crate::pixel::{decode_pixels, pixel_at, pixel_count, Pixel};
use vstd::arithmetic::div_mod::{lemma_fundamental_div_mod, lemma_fundamental_div_mod_converse};
use vstd::prelude::*;

verus! {

/// Why a range of pixels cannot be cut into rows.
#[derive(Debug, Clone, Copy, PartialEq, Eq, Structural)]
pub enum ChunkError {
    /// The range starts after its end.
    InvalidRange,
    /// The range reaches past the last pixel.
    RangeOutOfBounds,
}

impl ChunkError {
    /// The text of [`ChunkError::message`].
    pub open spec fn message_text(self) -> Seq<char> {
        match self {
            ChunkError::InvalidRange => "Start of chunk cannot be greater then end of chunk"@,
            ChunkError::RangeOutOfBounds => "Way pass the end of the video data"@,
        }
    }

    /// A sentence for the user that says which bound the range broke.
    pub fn message(&self) -> (text: &'static str)
        ensures
            text@ == self.message_text(),
    {
        match self {
            ChunkError::InvalidRange => "Start of chunk cannot be greater then end of chunk",
            ChunkError::RangeOutOfBounds => "Way pass the end of the video data",
        }
    }
}

/// One horizontal line of a frame: pixels borrowed from the video, in order.
#[derive(Debug, PartialEq, Eq)]
pub struct Row<'a> {
    pub values: Vec<&'a Pixel>,
}

impl<'a> View for Row<'a> {
    type V = Seq<Pixel>;

    /// The pixels of the row by value.
    open spec fn view(&self) -> Seq<Pixel> {
        Seq::new(self.values@.len(), |i: int| *self.values@[i])
    }
}

/// A named pixel buffer together with the mode it was decoded in.
pub struct Video {
    pub name: String,
    pub data: Vec<Pixel>,
    pub rgb: bool,
}

/// Number of complete rows of `row_width` pixels in the range `[start, end)`.
///
/// A row is complete once it holds `row_width` pixels. No pixel count ever
/// completes a row of width zero, so such a request has no rows.
pub open spec fn row_count(row_width: nat, start: int, end: int) -> nat {
    if row_width == 0 || end <= start {
        0
    } else {
        ((end - start) / (row_width as int)) as nat
    }
}

/// Row `r` of the rows cut from `pixels` beginning at `start`.
pub open spec fn row_at(pixels: Seq<Pixel>, row_width: nat, start: int, r: int) -> Seq<Pixel> {
    pixels.subrange(start + r * row_width, start + (r + 1) * row_width)
}

/// The complete rows of the range `[start, end)` of `pixels`, first row first.
/// Pixels after the last complete row belong to no row.
pub open spec fn rows_of(pixels: Seq<Pixel>, row_width: nat, start: int, end: int) -> Seq<
    Seq<Pixel>,
> {
    Seq::new(row_count(row_width, start, end), |r: int| row_at(pixels, row_width, start, r))
}

/// What cutting `[start, end)` of `pixels` into rows gives.
///
/// The range is half-open and `end` may equal the number of pixels, so the
/// last pixel of the buffer can be part of a row. A range that starts after
/// its end is invalid whatever the buffer holds; otherwise one that ends
/// after the last pixel is out of bounds.
pub open spec fn chunk_rows(pixels: Seq<Pixel>, row_width: nat, start: nat, end: nat) -> Result<
    Seq<Seq<Pixel>>,
    ChunkError,
> {
    if start > end {
        Err(ChunkError::InvalidRange)
    } else if end > pixels.len() {
        Err(ChunkError::RangeOutOfBounds)
    } else {
        Ok(rows_of(pixels, row_width, start as int, end as int))
    }
}

/// `rows` lie one after another in `pixels`, the first at `offset`: each
/// has `width` pixels, and pixel `c` of row `r` is the pixel at
/// `offset + r * width + c`.
pub open spec fn rows_start_at(
    rows: Seq<Seq<Pixel>>,
    pixels: Seq<Pixel>,
    width: nat,
    offset: int,
) -> bool {
    &&& forall|r: int| 0 <= r < rows.len() ==> (#[trigger] rows[r]).len() == width
    &&& forall|r: int, c: int|
        0 <= r < rows.len() && 0 <= c < width ==> #[trigger] rows[r][c] == pixels[offset + r
            * width + c]
}

/// The rows cut from a range within the buffer are full rows in buffer
/// order, beginning with the first pixel of the range. Together with the
/// pixels left over, fewer than one row, they make up the range.
pub proof fn lemma_rows_in_buffer_order(pixels: Seq<Pixel>, row_width: nat, start: int, end: int)
    requires
        0 <= start <= end <= pixels.len(),
    ensures
        rows_start_at(rows_of(pixels, row_width, start, end), pixels, row_width, start),
        row_width > 0 ==> ({
            let left_over = (end - start) % (row_width as int);
            &&& rows_of(pixels, row_width, start, end).len() == (end - start) / (row_width as int)
            &&& rows_of(pixels, row_width, start, end).len() * row_width + left_over == end - start
            &&& 0 <= left_over < row_width
        }),
{
    let rows = rows_of(pixels, row_width, start, end);
    let w = row_width as int;
    if w > 0 {
        lemma_fundamental_div_mod(end - start, w);
        assert forall|r: int| 0 <= r < rows.len() implies (#[trigger] rows[r]).len() == w by {
            lemma_row_within(w, rows.len() as int, r);
        }
        assert forall|r: int, c: int| 0 <= r < rows.len() && 0 <= c < w implies #[trigger] rows[r][c]
            == pixels[start + r * w + c] by {
            lemma_row_within(w, rows.len() as int, r);
        }
    }
}

/// Row `r` of `n` rows of width `w` ends within `n * w`.
proof fn lemma_row_within(w: int, n: int, r: int)
    by (nonlinear_arith)
    requires
        0 <= r < n,
        0 <= w,
    ensures
        0 <= r * w,
        (r + 1) * w == r * w + w,
        (r + 1) * w <= n * w,
        (r + 1) * w <= w * n,
{
}

/// The rows of a frame by value.
pub open spec fn rows_view(rows: Seq<Row<'_>>) -> Seq<Seq<Pixel>> {
    Seq::new(rows.len(), |r: int| rows[r]@)
}

/// The outcome of a request for rows, with the rows by value.
pub open spec fn chunk_view(result: Result<Vec<Row<'_>>, ChunkError>) -> Result<
    Seq<Seq<Pixel>>,
    ChunkError,
> {
    match result {
        Ok(rows) => Ok(rows_view(rows@)),
        Err(e) => Err(e),
    }
}

impl Video {
    /// Decodes `data` into pixels and names the result.
    ///
    /// Without `rgb` every byte becomes one black-and-white pixel. With `rgb`
    /// every three bytes become one colour pixel; where one or two bytes are
    /// left at the end, the first of them fills all three channels of a last
    /// pixel.
    pub fn new(name: String, data: &Vec<u8>, rgb: bool) -> (video: Video)
        ensures
            video.name == name,
            video.rgb == rgb,
            video.data@ == decode_pixels(data@, rgb),
    {
        let mut chunk_size: usize = 1;
        if rgb {
            chunk_size = 3;
        }
        let mut pixel_data: Vec<Pixel> = Vec::new();
        let mut pos: usize = 0;
        while pos < data.len()
            invariant
                pos <= data.len(),
                chunk_size == if rgb { 3usize } else { 1usize },
                pos == data.len() || pos == chunk_size * pixel_data.len(),
                pixel_data.len() == pixel_count(pos as nat, rgb),
                forall|i: int|
                    0 <= i < pixel_data.len() ==> #[trigger] pixel_data[i] == pixel_at(
                        data@,
                        rgb,
                        i,
                    ),
            decreases data.len() - pos,
        {
            if rgb {
                if data.len() - pos >= 3 {
                    pixel_data.push(Pixel::RGB(data[pos], data[pos + 1], data[pos + 2]));
                    pos += chunk_size;
                } else {
                    pixel_data.push(Pixel::RGB(data[pos], data[pos], data[pos]));
                    pos = data.len();
                }
            } else {
                pixel_data.push(Pixel::BW(data[pos]));
                pos += chunk_size;
            }
        }
        assert(pixel_data@ =~= decode_pixels(data@, rgb));
        Video { name, rgb, data: pixel_data }
    }

    /// Cuts the pixels in `[start, end)` into rows of `row_size` pixels.
    ///
    /// Rows come in buffer order, and so do the pixels within a row. Pixels
    /// left over after the last complete row are dropped.
    ///
    /// The range is half-open: the pixel at `end` is never part of a row, and
    /// `end` may be as large as the number of pixels. A range with
    /// `start > end` is refused as invalid before any bound is looked at; one
    /// with `end` beyond the number of pixels is refused as out of bounds.
    pub fn get_chunk(&self, row_size: usize, start: usize, end: usize) -> (result: Result<
        Vec<Row<'_>>,
        ChunkError,
    >)
        ensures
            chunk_view(result) == chunk_rows(self.data@, row_size as nat, start as nat, end as nat),
            start > end ==> result matches Err(ChunkError::InvalidRange),
            start <= end && end > self.data.len() ==> result matches Err(
                ChunkError::RangeOutOfBounds,
            ),
            start <= end <= self.data.len() ==> result is Ok,
            result matches Ok(rows) ==> ({
                &&& rows.len() == row_count(row_size as nat, start as int, end as int)
                &&& forall|r: int|
                    0 <= r < rows.len() ==> (#[trigger] rows[r])@ == row_at(
                        self.data@,
                        row_size as nat,
                        start as int,
                        r,
                    )
            }),
    {
        if start > end {
            return Err(ChunkError::InvalidRange);
        }
        if start > self.data.len() {
            return Err(ChunkError::RangeOutOfBounds);
        }
        if end > self.data.len() {
            return Err(ChunkError::RangeOutOfBounds);
        }
        let mut chunk: Vec<Row> = Vec::new();
        let mut values: Vec<&Pixel> = Vec::new();
        let mut i: usize = 0;
        let mut pos: usize = start;
        while pos < end
            invariant
                start <= pos <= end <= self.data.len(),
                i == values.len(),
                row_size == 0 ==> chunk.len() == 0 && i == pos - start,
                row_size > 0 ==> i < row_size && pos - start == chunk.len() * row_size + i,
                forall|r: int|
                    0 <= r < chunk.len() ==> (#[trigger] chunk[r])@ == row_at(
                        self.data@,
                        row_size as nat,
                        start as int,
                        r,
                    ),
                forall|c: int| 0 <= c < i ==> *(#[trigger] values[c]) == self.data[pos - i + c],
            decreases end - pos,
        {
            let value = &self.data[pos];
            i += 1;
            values.push(value);
            if i == row_size {
                proof {
                    let r = chunk.len() as int;
                    let row = Row { values };
                    assert(start + (r + 1) * row_size == start + r * row_size + row_size)
                        by (nonlinear_arith);
                    assert(row@ =~= row_at(self.data@, row_size as nat, start as int, r));
                }
                chunk.push(Row { values });
                i = 0;
                values = Vec::new();
            }
            pos += 1;
        }
        proof {
            if row_size > 0 {
                lemma_fundamental_div_mod_converse(
                    end - start,
                    row_size as int,
                    chunk.len() as int,
                    i as int,
                );
            }
            assert(rows_view(chunk@) =~= rows_of(
                self.data@,
                row_size as nat,
                start as int,
                end as int,
            ));
        }
        Ok(chunk)
    }
}

} // verus!
