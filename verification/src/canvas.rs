//! The canvas store: a grid of pixels, each stamped with the value of a
//! shared, strictly increasing version counter at its last color change.
//!
//! The counter (`next_version`) is always strictly greater than every version
//! stored on the grid, so each successful write receives a version larger
//! than anything previously assigned — the property incremental sync relies
//! on. On startup the counter is recovered by scanning the stored rows for
//! the largest version and resuming one past it.

use vstd::prelude::*;

use crate::tables::{spec_to_rgb, to_rgb, lemma_to_rgb_idempotent, Pixel, PaintError, RecoveryError};

verus! {

/// The color every pixel starts with: opaque white.
pub const BLANK_COLOR: u32 = 0xFFFFFFFF;

/// Positional well-formedness of one stored row: row `i` is the pixel with
/// id `i`, its coordinates decompose that id, its color is fully opaque.
pub open spec fn row_ok(p: Pixel, i: int, width: u32, height: u32) -> bool {
    &&& p.pixel_id == i
    &&& (p.x as int) < width as int
    &&& (p.y as int) < height as int
    &&& i == p.y as int * width as int + p.x as int
    &&& p.color == spec_to_rgb(p.color)
}

/// Positional well-formedness of a whole block of rows.
pub open spec fn rows_ok(rows: Seq<Pixel>, width: u32, height: u32) -> bool {
    &&& rows.len() <= width as int * height as int
    &&& forall|i: int| 0 <= i < rows.len() ==> #[trigger] row_ok(rows[i], i, width, height)
}

/// The largest version stored in `rows` (0 when there are none).
pub open spec fn max_version(rows: Seq<Pixel>) -> int
    decreases rows.len(),
{
    if rows.len() == 0 {
        0
    } else {
        let m = max_version(rows.drop_last());
        if rows.last().version as int > m {
            rows.last().version as int
        } else {
            m
        }
    }
}

/// `max_version` is an upper bound for every stored version.
pub proof fn lemma_max_version_ge(rows: Seq<Pixel>, i: int)
    requires
        0 <= i < rows.len(),
    ensures
        max_version(rows) >= rows[i].version as int,
    decreases rows.len(),
{
    if i < rows.len() - 1 {
        lemma_max_version_ge(rows.drop_last(), i);
    }
}

/// Row `i` of `c` is a blank, never-painted pixel: the id matches the
/// position, the color is the starting white, and no version was assigned.
pub open spec fn blank_pixel_at(c: Canvas, i: int) -> bool {
    &&& c.pixels@[i].pixel_id == i
    &&& c.pixels@[i].color == BLANK_COLOR
    &&& c.pixels@[i].version == 0
}

/// The grid of pixels together with the shared version counter.
pub struct Canvas {
    pub width: u32,
    pub height: u32,
    /// Row `i` holds the pixel with id `i`.
    pub pixels: Vec<Pixel>,
    /// The version the next successful color change will receive; strictly
    /// greater than every version stored on the grid.
    pub next_version: u64,
}

/// Both canvases hold exactly the same state.
pub open spec fn canvas_unchanged(pre: Canvas, post: Canvas) -> bool {
    &&& post.width == pre.width
    &&& post.height == pre.height
    &&& post.pixels@ == pre.pixels@
    &&& post.next_version == pre.next_version
}

/// The pixel that a successful write of `color` to `pixel_id` stores:
/// coordinates kept, color forced opaque, version taken from the counter.
pub open spec fn painted_pixel(pre: Canvas, pixel_id: int, color: u32) -> Pixel {
    Pixel {
        pixel_id: pre.pixels@[pixel_id].pixel_id,
        x: pre.pixels@[pixel_id].x,
        y: pre.pixels@[pixel_id].y,
        color: spec_to_rgb(color),
        version: pre.next_version,
    }
}

/// `post` is `pre` after exactly one successful color change of `pixel_id`
/// to `color`: that pixel is restamped with the counter's current value, the
/// counter advances by one, and nothing else moves.
pub open spec fn paints(pre: Canvas, post: Canvas, pixel_id: int, color: u32) -> bool {
    &&& 0 <= pixel_id < pre.pixels@.len()
    &&& post.width == pre.width
    &&& post.height == pre.height
    &&& post.pixels@ == pre.pixels@.update(pixel_id, painted_pixel(pre, pixel_id, color))
    &&& post.next_version == pre.next_version + 1
}

impl Canvas {
    /// Number of grid cells, `width * height`.
    pub open spec fn area(self) -> int {
        self.width as int * self.height as int
    }

    /// Row `i` is well formed and its version lies below the counter.
    pub open spec fn pixel_ok(self, i: int) -> bool {
        &&& row_ok(self.pixels@[i], i, self.width, self.height)
        &&& (self.pixels@[i].version as int) < self.next_version as int
    }

    /// Well-formedness: ids fit `u32`, rows are positionally correct, and
    /// the counter dominates every stored version.
    pub open spec fn wf(self) -> bool {
        &&& self.area() <= u32::MAX as int
        &&& self.pixels@.len() <= self.area()
        &&& self.next_version >= 1
        &&& forall|i: int| 0 <= i < self.pixels@.len() ==> #[trigger] self.pixel_ok(i)
    }

    /// Every cell of the grid has its row.
    pub open spec fn complete(self) -> bool {
        self.pixels@.len() == self.area()
    }

    /// An empty store for a fresh board; `init` fills it.
    pub fn new(width: u32, height: u32) -> (c: Canvas)
        requires
            width as int * height as int <= u32::MAX as int,
        ensures
            c.wf(),
            c.width == width,
            c.height == height,
            c.pixels@.len() == 0,
            c.next_version == 1,
    {
        Canvas { width, height, pixels: Vec::new(), next_version: 1 }
    }

    /// Rebuilds the store from rows loaded out of durable storage and
    /// recovers the version counter by the required startup scan: one past
    /// the largest stored version. Any defect in the rows is fatal.
    pub fn from_rows(width: u32, height: u32, rows: Vec<Pixel>) -> (r: Result<Canvas, RecoveryError>)
        ensures
            match r {
                Ok(c) => {
                    &&& width as int * height as int <= u32::MAX as int
                    &&& rows_ok(rows@, width, height)
                    &&& max_version(rows@) < u64::MAX as int
                    &&& c.wf()
                    &&& c.width == width
                    &&& c.height == height
                    &&& c.pixels@ == rows@
                    &&& c.next_version as int == max_version(rows@) + 1
                },
                Err(RecoveryError::GridTooLarge) => width as int * height as int > u32::MAX as int,
                Err(RecoveryError::BadRow) => {
                    &&& width as int * height as int <= u32::MAX as int
                    &&& !rows_ok(rows@, width, height)
                },
                Err(RecoveryError::CounterExhausted) => {
                    &&& width as int * height as int <= u32::MAX as int
                    &&& rows_ok(rows@, width, height)
                    &&& max_version(rows@) == u64::MAX as int
                },
            },
    {
        proof {
            assert((width as int) * (height as int) < 0x10000000000000000) by (nonlinear_arith)
                requires
                    (width as int) < 0x100000000,
                    (height as int) < 0x100000000,
                    0 <= width as int,
                    0 <= height as int,
            {}
        }
        if width as u64 * height as u64 > u32::MAX as u64 {
            return Err(RecoveryError::GridTooLarge);
        }
        let area = width as u64 * height as u64;
        if rows.len() as u64 > area {
            return Err(RecoveryError::BadRow);
        }
        let mut k: usize = 0;
        while k < rows.len()
            invariant
                0 <= k <= rows@.len(),
                rows@.len() as int <= width as int * height as int,
                width as int * height as int <= u32::MAX as int,
                forall|i: int| 0 <= i < k ==> #[trigger] row_ok(rows@[i], i, width, height),
            decreases rows@.len() - k,
        {
            let p = rows[k];
            if !(p.pixel_id as usize == k && p.x < width && p.y < height
                && to_rgb(p.color) == p.color) {
                assert(!row_ok(rows@[k as int], k as int, width, height));
                return Err(RecoveryError::BadRow);
            }
            proof {
                assert((p.y as int) * (width as int) + (p.x as int) < 0x10000000000000000)
                    by (nonlinear_arith)
                    requires
                        (p.y as int) < 0x100000000,
                        (width as int) < 0x100000000,
                        (p.x as int) < 0x100000000,
                        0 <= p.y as int,
                        0 <= width as int,
                        0 <= p.x as int,
                {}
            }
            if p.y as u64 * width as u64 + p.x as u64 != k as u64 {
                assert(!row_ok(rows@[k as int], k as int, width, height));
                return Err(RecoveryError::BadRow);
            }
            k += 1;
        }
        let mut m: u64 = 0;
        let mut j: usize = 0;
        while j < rows.len()
            invariant
                0 <= j <= rows@.len(),
                m as int == max_version(rows@.subrange(0, j as int)),
            decreases rows@.len() - j,
        {
            proof {
                let pre = rows@.subrange(0, j as int);
                let post = rows@.subrange(0, j as int + 1);
                assert(post.drop_last() =~= pre);
                assert(post.last() == rows@[j as int]);
            }
            if rows[j].version > m {
                m = rows[j].version;
            }
            j += 1;
        }
        proof {
            assert(rows@.subrange(0, rows@.len() as int) =~= rows@);
        }
        if m == u64::MAX {
            return Err(RecoveryError::CounterExhausted);
        }
        let c = Canvas { width, height, pixels: rows, next_version: m + 1 };
        proof {
            assert forall|i: int| 0 <= i < c.pixels@.len() implies #[trigger] c.pixel_ok(i) by {
                lemma_max_version_ge(c.pixels@, i);
            }
        }
        Ok(c)
    }

    /// Creates the missing tail of the grid: every cell from the current row
    /// count up to `width * height` gets a blank, never-painted pixel.
    /// Existing rows and the version counter are untouched, so running this
    /// on an already complete grid is a no-op.
    pub fn init(&mut self)
        requires
            old(self).wf(),
        ensures
            final(self).wf(),
            final(self).complete(),
            final(self).width == old(self).width,
            final(self).height == old(self).height,
            final(self).next_version == old(self).next_version,
            forall|i: int|
                0 <= i < old(self).pixels@.len() ==> final(self).pixels@[i] == old(self).pixels@[i],
            forall|i: int|
                old(self).pixels@.len() <= i < final(self).area()
                    ==> #[trigger] blank_pixel_at(*final(self), i),
    {
        let area = self.width as u64 * self.height as u64;
        while (self.pixels.len() as u64) < area
            invariant
                self.wf(),
                area == self.area(),
                self.width == old(self).width,
                self.height == old(self).height,
                self.next_version == old(self).next_version,
                forall|i: int|
                    0 <= i < old(self).pixels@.len() ==> self.pixels@[i] == old(self).pixels@[i],
                old(self).pixels@.len() <= self.pixels@.len(),
                forall|i: int|
                    old(self).pixels@.len() <= i < self.pixels@.len()
                        ==> #[trigger] blank_pixel_at(*self, i),
            decreases self.area() - self.pixels@.len(),
        {
            assert(self.width > 0);
            let idx = self.pixels.len() as u32;
            let x = idx % self.width;
            let y = idx / self.width;
            proof {
                let w = self.width as int;
                let h = self.height as int;
                let i = idx as int;
                let xi = x as int;
                let yi = y as int;
                vstd::arithmetic::div_mod::lemma_fundamental_div_mod(i, w);
                vstd::arithmetic::div_mod::lemma_mod_bound(i, w);
                assert(i == yi * w + xi) by (nonlinear_arith)
                    requires
                        i == w * yi + xi,
                {}
                assert(yi < h) by (nonlinear_arith)
                    requires
                        i == w * yi + xi,
                        0 <= xi,
                        i < w * h,
                        w > 0,
                        0 <= yi,
                {}
                assert(spec_to_rgb(BLANK_COLOR) == BLANK_COLOR) by (bit_vector);
            }
            let ghost pre = *self;
            let np = Pixel { pixel_id: idx, x, y, color: BLANK_COLOR, version: 0 };
            self.pixels.push(np);
            proof {
                assert forall|i: int| 0 <= i < self.pixels@.len() implies #[trigger] self.pixel_ok(i) by {
                    if i < pre.pixels@.len() {
                        assert(pre.pixel_ok(i));
                        assert(self.pixels@[i] == pre.pixels@[i]);
                    } else {
                        assert(self.pixels@[i] == np);
                        assert(row_ok(np, i, self.width, self.height));
                    }
                }
                assert forall|i: int|
                    old(self).pixels@.len() <= i < self.pixels@.len()
                        implies #[trigger] blank_pixel_at(*self, i) by {
                    if i < pre.pixels@.len() {
                        assert(blank_pixel_at(pre, i));
                        assert(self.pixels@[i] == pre.pixels@[i]);
                    } else {
                        assert(self.pixels@[i] == np);
                    }
                }
            }
        }
    }

    /// Point lookup: the pixel with this id, when its row exists.
    pub fn get_pixel(&self, pixel_id: u32) -> (r: Option<Pixel>)
        ensures
            r == if (pixel_id as int) < self.pixels@.len() {
                Some(self.pixels@[pixel_id as int])
            } else {
                None::<Pixel>
            },
    {
        if (pixel_id as usize) < self.pixels.len() {
            Some(self.pixels[pixel_id as usize])
        } else {
            None
        }
    }

    /// Applies a color change: rejects an id at or beyond `width * height`;
    /// stores nothing when the row is absent or already holds the requested
    /// (opacity-forced) color; otherwise writes the new color, stamps it with
    /// the counter, and advances the counter. `Ok(true)` reports that a write
    /// happened.
    pub fn set_color(&mut self, pixel_id: u32, color: u32) -> (r: Result<bool, PaintError>)
        requires
            old(self).wf(),
            old(self).next_version < u64::MAX,
        ensures
            final(self).wf(),
            ((pixel_id as int) >= old(self).area()) <==> r == Err::<bool, PaintError>(
                PaintError::OutOfRange,
            ),
            (pixel_id as int) >= old(self).area() ==> canvas_unchanged(*old(self), *final(self)),
            ((pixel_id as int) < old(self).area() && (pixel_id as int) >= old(self).pixels@.len())
                ==> r == Ok::<bool, PaintError>(false) && canvas_unchanged(*old(self), *final(self)),
            ((pixel_id as int) < old(self).pixels@.len()
                && old(self).pixels@[pixel_id as int].color == spec_to_rgb(color))
                ==> r == Ok::<bool, PaintError>(false) && canvas_unchanged(*old(self), *final(self)),
            ((pixel_id as int) < old(self).pixels@.len()
                && old(self).pixels@[pixel_id as int].color != spec_to_rgb(color)) ==> {
                &&& r == Ok::<bool, PaintError>(true)
                &&& paints(*old(self), *final(self), pixel_id as int, color)
            },
    {
        let area = self.width as u64 * self.height as u64;
        if pixel_id as u64 >= area {
            return Err(PaintError::OutOfRange);
        }
        if pixel_id as usize >= self.pixels.len() {
            return Ok(false);
        }
        let idx = pixel_id as usize;
        let cur = self.pixels[idx];
        let rgb = to_rgb(color);
        if cur.color == rgb {
            return Ok(false);
        }
        self.pixels.set(
            idx,
            Pixel { pixel_id: cur.pixel_id, x: cur.x, y: cur.y, color: rgb, version: self.next_version },
        );
        self.next_version = self.next_version + 1;
        proof {
            lemma_to_rgb_idempotent(color);
            assert forall|i: int| 0 <= i < self.pixels@.len() implies #[trigger] self.pixel_ok(i) by {
                assert(old(self).pixel_ok(i));
            }
        }
        Ok(true)
    }
}

/// A successful color change stamps the painted pixel with a version that
/// strictly exceeds every version previously observed anywhere on the canvas.
pub proof fn lemma_fresh_version_dominates(pre: Canvas, post: Canvas, pixel_id: int, color: u32)
    requires
        pre.wf(),
        paints(pre, post, pixel_id, color),
    ensures
        post.pixels@[pixel_id].version == pre.next_version,
        forall|j: int|
            0 <= j < pre.pixels@.len() ==> post.pixels@[pixel_id].version > #[trigger] pre.pixels@[j].version,
{
    assert forall|j: int|
        0 <= j < pre.pixels@.len() implies post.pixels@[pixel_id].version > #[trigger] pre.pixels@[j].version by {
        assert(pre.pixel_ok(j));
    }
}

/// Two successive successful color changes of two distinct pixels leave both
/// pixels with distinct versions, ordered as the writes were: the later
/// write's version is the larger, and both exceed everything stored before
/// the first write.
pub proof fn lemma_distinct_paints_ordered(
    c0: Canvas,
    c1: Canvas,
    c2: Canvas,
    p1: int,
    p2: int,
    col1: u32,
    col2: u32,
)
    requires
        c0.wf(),
        p1 != p2,
        paints(c0, c1, p1, col1),
        paints(c1, c2, p2, col2),
    ensures
        c2.pixels@[p1].version == c0.next_version,
        c2.pixels@[p2].version == c0.next_version + 1,
        c2.pixels@[p1].version != c2.pixels@[p2].version,
        c2.pixels@[p1].version < c2.pixels@[p2].version,
        forall|j: int|
            0 <= j < c0.pixels@.len() ==> c2.pixels@[p1].version > #[trigger] c0.pixels@[j].version
                && c2.pixels@[p2].version > c0.pixels@[j].version,
{
    lemma_fresh_version_dominates(c0, c1, p1, col1);
    assert(c2.pixels@[p1] == c1.pixels@[p1]);
    assert forall|j: int|
        0 <= j < c0.pixels@.len() implies c2.pixels@[p1].version > #[trigger] c0.pixels@[j].version
            && c2.pixels@[p2].version > c0.pixels@[j].version by {
        assert(c0.pixel_ok(j));
    }
}

} // verus!
