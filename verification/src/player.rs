//! Frame-by-frame playback of a video.

use crate::pixel::Pixel;
use crate::video::{
    chunk_rows, chunk_view, lemma_rows_in_buffer_order, row_at, rows_start_at, rows_view, ChunkError,
    Row, Video,
};
use vstd::arithmetic::div_mod::lemma_div_multiples_vanish;
use vstd::prelude::*;

verus! {

/// Row width of a player that was given no other.
pub const DEFAULT_WIDTH: u32 = 15;

/// Number of rows per frame of a player that was given no other.
pub const DEFAULT_HEIGHT: u32 = 10;

/// A video, the dimensions `[row width, rows per frame]` of its frames, and
/// the index of the frame that is shown.
pub struct VideoPlayer {
    pub video: Video,
    pub current_frame: u64,
    pub dimensions: [u32; 2],
}

impl VideoPlayer {
    /// Pixels per row.
    pub open spec fn row_width(&self) -> nat {
        self.dimensions[0] as nat
    }

    /// Rows per frame.
    pub open spec fn row_height(&self) -> nat {
        self.dimensions[1] as nat
    }

    /// Pixels per frame.
    pub open spec fn frame_len(&self) -> nat {
        self.row_width() * self.row_height()
    }

    /// Offset in the video of the first pixel of the current frame.
    pub open spec fn frame_start(&self) -> nat {
        self.frame_len() * (self.current_frame as nat)
    }

    /// Offset in the video just after the last pixel of the current frame.
    pub open spec fn frame_end(&self) -> nat {
        self.frame_len() * (self.current_frame as nat + 1)
    }

    /// The current frame: the rows cut from `[frame_start, frame_end)`.
    pub open spec fn frame(&self) -> Result<Seq<Seq<Pixel>>, ChunkError> {
        chunk_rows(self.video.data@, self.row_width(), self.frame_start(), self.frame_end())
    }

    /// The player one frame further on.
    pub open spec fn advanced(self) -> VideoPlayer
        recommends
            self.current_frame < u64::MAX,
    {
        VideoPlayer {
            video: self.video,
            current_frame: (self.current_frame + 1) as u64,
            dimensions: self.dimensions,
        }
    }

    /// The player `n` frames further on.
    pub open spec fn advanced_by(self, n: nat) -> VideoPlayer
        recommends
            self.current_frame + n <= u64::MAX,
        decreases n,
    {
        if n == 0 {
            self
        } else {
            self.advanced_by((n - 1) as nat).advanced()
        }
    }

    /// A player at the first frame of `video`, with the default dimensions.
    pub fn new(video: Video) -> (player: VideoPlayer)
        ensures
            player.video == video,
            player.current_frame == 0,
            player.dimensions[0] == DEFAULT_WIDTH,
            player.dimensions[1] == DEFAULT_HEIGHT,
            player.frame_len() == DEFAULT_WIDTH * DEFAULT_HEIGHT,
            player.frame_start() == 0,
    {
        let player = VideoPlayer {
            video,
            current_frame: 0,
            dimensions: [DEFAULT_WIDTH, DEFAULT_HEIGHT],
        };
        assert(player.frame_len() == DEFAULT_WIDTH * DEFAULT_HEIGHT && player.frame_start() == 0)
            by (nonlinear_arith)
            requires
                player.frame_len() == player.dimensions[0] * player.dimensions[1],
                player.frame_start() == player.frame_len() * player.current_frame,
                player.dimensions[0] == DEFAULT_WIDTH,
                player.dimensions[1] == DEFAULT_HEIGHT,
                player.current_frame == 0,
        ;
        player
    }

    /// Number of pixels in one frame: row width times rows per frame.
    pub fn chunk_size(&self) -> (n: u64)
        ensures
            n == self.frame_len(),
            n == self.dimensions[0] * self.dimensions[1],
    {
        let width: u64 = self.dimensions[0] as u64;
        let height: u64 = self.dimensions[1] as u64;
        assert(width * height <= u64::MAX) by (nonlinear_arith)
            requires
                width <= u32::MAX,
                height <= u32::MAX,
        ;
        width * height
    }

    /// The rows of the current frame.
    ///
    /// Fails when the frame reaches past the end of the video. The cursor is
    /// never checked before that.
    pub fn get_current_frame(&self) -> (result: Result<Vec<Row<'_>>, ChunkError>)
        ensures
            chunk_view(result) == self.frame(),
            self.frame_end() > self.video.data.len() ==> result matches Err(
                ChunkError::RangeOutOfBounds,
            ),
            self.frame_end() <= self.video.data.len() ==> result is Ok,
            result matches Ok(rows) ==> ({
                &&& self.row_width() == 0 ==> rows.len() == 0
                &&& self.row_width() > 0 ==> rows.len() == self.row_height()
                &&& forall|r: int|
                    0 <= r < rows.len() ==> (#[trigger] rows[r])@ == row_at(
                        self.video.data@,
                        self.row_width(),
                        self.frame_start() as int,
                        r,
                    )
            }),
    {
        let frame_len: u128 = self.chunk_size() as u128;
        let index: u128 = self.current_frame as u128;
        assert(frame_len * (index + 1) <= u128::MAX) by (nonlinear_arith)
            requires
                frame_len <= u64::MAX,
                index <= u64::MAX,
        ;
        assert(0 <= frame_len * index <= frame_len * (index + 1)) by (nonlinear_arith)
            requires
                frame_len >= 0,
                index >= 0,
        ;
        let start: u128 = frame_len * index;
        let end: u128 = frame_len * (index + 1);
        if end > self.video.data.len() as u128 {
            return Err(ChunkError::RangeOutOfBounds);
        }
        proof {
            let w = self.row_width() as int;
            let h = self.row_height() as int;
            assert(end - start == h * w) by (nonlinear_arith)
                requires
                    start == frame_len * index,
                    end == frame_len * (index + 1),
                    frame_len == w * h,
            ;
            if w > 0 {
                lemma_div_multiples_vanish(h, w);
            }
        }
        self.video.get_chunk(self.dimensions[0] as usize, start as usize, end as usize)
    }

    /// Moves on to the next frame, whether or not the video has one.
    pub fn next_frame(&mut self)
        requires
            old(self).current_frame < u64::MAX,
        ensures
            *final(self) == old(self).advanced(),
            final(self).current_frame == old(self).current_frame + 1,
            final(self).video == old(self).video,
            final(self).dimensions == old(self).dimensions,
    {
        self.current_frame += 1;
    }
}

/// Two requests for the current frame with no advance between them give the
/// same outcome: the same error, or the same rows of the same pixels.
pub proof fn lemma_current_frame_repeats(
    player: VideoPlayer,
    first: Result<Vec<Row<'_>>, ChunkError>,
    second: Result<Vec<Row<'_>>, ChunkError>,
)
    requires
        chunk_view(first) == player.frame(),
        chunk_view(second) == player.frame(),
    ensures
        chunk_view(first) == chunk_view(second),
        (match (first, second) {
            (Ok(a), Ok(b)) => a.len() == b.len() && forall|r: int|
                0 <= r < a.len() ==> (#[trigger] a[r])@ == b[r]@,
            (Err(e1), Err(e2)) => e1 == e2,
            _ => false,
        }),
{
    match (first, second) {
        (Ok(a), Ok(b)) => {
            assert(rows_view(a@) == rows_view(b@));
            assert forall|r: int| 0 <= r < a.len() implies (#[trigger] a[r])@ == b[r]@ by {
                assert(rows_view(a@)[r] == rows_view(b@)[r]);
            }
        },
        _ => {},
    }
}

/// After `n` advances the cursor is `n` further on, and the current frame
/// begins that many frames into the video: from the first frame, at offset
/// `n * width * height`. Where that frame lies within the video it is there
/// to be had, and its rows hold the pixels from that offset on, in order.
pub proof fn lemma_frame_after_advances(player: VideoPlayer, n: nat)
    requires
        player.current_frame + n <= u64::MAX,
    ensures
        player.advanced_by(n).video == player.video,
        player.advanced_by(n).dimensions == player.dimensions,
        player.advanced_by(n).current_frame == player.current_frame + n,
        player.advanced_by(n).frame_start() == (player.current_frame + n) * player.row_width()
            * player.row_height(),
        player.current_frame == 0 ==> player.advanced_by(n).frame_start() == n
            * player.row_width() * player.row_height(),
        player.advanced_by(n).frame_end() <= player.video.data@.len() ==> ({
            &&& player.advanced_by(n).frame() matches Ok(rows)
            &&& player.row_width() == 0 ==> rows.len() == 0
            &&& player.row_width() > 0 ==> rows.len() == player.row_height()
            &&& rows_start_at(
                rows,
                player.video.data@,
                player.row_width(),
                player.advanced_by(n).frame_start() as int,
            )
        }),
    decreases n,
{
    if n > 0 {
        lemma_frame_after_advances(player, (n - 1) as nat);
    }
    let later = player.advanced_by(n);
    let pixels = player.video.data@;
    let w = player.row_width() as int;
    let h = player.row_height() as int;
    let index = player.current_frame + n;
    let start = later.frame_start() as int;
    let end = later.frame_end() as int;
    assert(start == index * w * h && end - start == h * w && start <= end) by (nonlinear_arith)
        requires
            start == (w * h) * index,
            end == (w * h) * (index + 1),
            0 <= w,
            0 <= h,
    ;
    if end <= pixels.len() {
        lemma_rows_in_buffer_order(pixels, w as nat, start, end);
        if w > 0 {
            lemma_div_multiples_vanish(h, w);
        }
    }
}

} // verus!
