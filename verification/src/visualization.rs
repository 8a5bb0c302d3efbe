//! The pixel buffer that a host hands to its display surface.

use vstd::prelude::*;

verus! {

/// A square of `res` by `res` pixels in an image `width` pixels wide: the
/// one that stands `i` squares from the first along a row and `j` squares
/// along a column.
pub struct Block {
    pub i: int,
    pub j: int,
    pub res: int,
    pub width: int,
}

impl Block {
    /// Offset, in pixels from the start of the image, of the pixel `(ii, jj)`
    /// of the block.
    pub open spec fn offset(self, ii: int, jj: int) -> int {
        (self.i * self.res + ii) + (self.j * self.res + jj) * self.width
    }

    /// Whether the pixel at offset `p` belongs to the block.
    pub open spec fn holds(self, p: int) -> bool {
        exists|ii: int, jj: int|
            0 <= ii < self.res && 0 <= jj < self.res && #[trigger] self.offset(ii, jj) == p
    }

    /// Whether the pixel at offset `p` is one of those that a walk through
    /// the block reaches before it comes to `(a, b)`.
    spec fn reached(self, a: int, b: int, p: int) -> bool {
        exists|ii: int, jj: int|
            0 <= ii < self.res && 0 <= jj < self.res && (ii < a || (ii == a && jj < b))
                && #[trigger] self.offset(ii, jj) == p
    }

    /// One step further the walk has reached one pixel more.
    proof fn lemma_reached_next(self, a: int, b: int, p: int)
        requires
            0 <= a < self.res,
            0 <= b < self.res,
        ensures
            self.reached(a, b + 1, p) <==> self.reached(a, b, p) || p == self.offset(a, b),
    {
        if self.reached(a, b + 1, p) {
            let (ii, jj) = choose|ii: int, jj: int|
                0 <= ii < self.res && 0 <= jj < self.res && (ii < a || (ii == a && jj < b + 1))
                    && #[trigger] self.offset(ii, jj) == p;
            if !(ii == a && jj == b) {
                assert(self.offset(ii, jj) == p);
            }
        }
        if self.reached(a, b, p) {
            let (ii, jj) = choose|ii: int, jj: int|
                0 <= ii < self.res && 0 <= jj < self.res && (ii < a || (ii == a && jj < b))
                    && #[trigger] self.offset(ii, jj) == p;
            assert(self.offset(ii, jj) == p);
        }
        if p == self.offset(a, b) {
            assert(self.offset(a, b) == p);
        }
    }

    /// At the end of a line the walk goes on with the next one.
    proof fn lemma_reached_line(self, a: int, p: int)
        requires
            0 <= a < self.res,
        ensures
            self.reached(a, self.res, p) == self.reached(a + 1, 0, p),
    {
        if self.reached(a, self.res, p) {
            let (ii, jj) = choose|ii: int, jj: int|
                0 <= ii < self.res && 0 <= jj < self.res && (ii < a || (ii == a && jj < self.res))
                    && #[trigger] self.offset(ii, jj) == p;
            assert(self.offset(ii, jj) == p);
        }
        if self.reached(a + 1, 0, p) {
            let (ii, jj) = choose|ii: int, jj: int|
                0 <= ii < self.res && 0 <= jj < self.res && (ii < a + 1 || (ii == a + 1 && jj < 0))
                    && #[trigger] self.offset(ii, jj) == p;
            assert(self.offset(ii, jj) == p);
        }
    }

    /// After the last line the walk has reached the whole block.
    proof fn lemma_reached_all(self, p: int)
        requires
            0 <= self.res,
        ensures
            self.reached(self.res, 0, p) == self.holds(p),
    {
        if self.reached(self.res, 0, p) {
            let (ii, jj) = choose|ii: int, jj: int|
                0 <= ii < self.res && 0 <= jj < self.res && (ii < self.res || (ii == self.res && jj
                    < 0)) && #[trigger] self.offset(ii, jj) == p;
            assert(self.offset(ii, jj) == p);
        }
        if self.holds(p) {
            let (ii, jj) = choose|ii: int, jj: int|
                0 <= ii < self.res && 0 <= jj < self.res && #[trigger] self.offset(ii, jj) == p;
            assert(self.offset(ii, jj) == p);
        }
    }

    /// The offset of a pixel of the block is at most that of the block's
    /// last pixel, and so are the numbers it is computed from.
    proof fn lemma_offset_bound(self, ii: int, jj: int)
        requires
            0 <= self.i,
            0 <= self.j,
            0 <= self.width,
            0 <= ii < self.res,
            0 <= jj < self.res,
        ensures
            0 <= self.offset(ii, jj) <= self.offset(self.res - 1, self.res - 1),
            0 <= (self.j * self.res + jj) * self.width <= self.offset(ii, jj),
            0 <= self.i * self.res + ii <= self.offset(ii, jj),
            0 <= self.i * self.res,
            0 <= self.j * self.res,
            self.width > 0 ==> self.j * self.res + jj <= (self.j * self.res + jj) * self.width,
    {
        let (i, j, res, width) = (self.i, self.j, self.res, self.width);
        assert(0 <= i * res) by (nonlinear_arith)
            requires
                0 <= i,
                0 <= res,
        ;
        assert(0 <= j * res) by (nonlinear_arith)
            requires
                0 <= j,
                0 <= res,
        ;
        assert((j * res + jj) * width <= (j * res + res - 1) * width) by (nonlinear_arith)
            requires
                0 <= width,
                jj <= res - 1,
        ;
        assert(0 <= (j * res + jj) * width) by (nonlinear_arith)
            requires
                0 <= width,
                0 <= j * res + jj,
        ;
        assert(width > 0 ==> j * res + jj <= (j * res + jj) * width) by (nonlinear_arith)
            requires
                0 <= j * res + jj,
        ;
    }
}

/// What an image holds.
pub struct ImageView {
    /// Width in pixels.
    pub width: nat,
    /// Height in pixels.
    pub height: nat,
    /// Side of a block, in pixels.
    pub resolution: nat,
    /// The bytes of the image, four per pixel, row after row.
    pub bytes: Seq<u8>,
}

impl ImageView {
    /// Number of pixels.
    pub open spec fn pixels(self) -> nat {
        self.width * self.height
    }

    /// The image holds four bytes for each pixel.
    pub open spec fn wf(self) -> bool {
        self.bytes.len() == 4 * self.pixels()
    }

    /// The four bytes of the pixel at offset `p`.
    pub open spec fn pixel(self, p: int) -> Seq<u8> {
        self.bytes.subrange(4 * p, 4 * p + 4)
    }

    /// The block `(i, j)` of the image.
    pub open spec fn block(self, i: int, j: int) -> Block {
        Block { i, j, res: self.resolution as int, width: self.width as int }
    }

    /// Whether every pixel of block `(i, j)` lies inside the image.
    pub open spec fn block_fits(self, i: int, j: int) -> bool {
        let block = self.block(i, j);
        block.res == 0 || block.offset(block.res - 1, block.res - 1) < self.pixels()
    }
}

/// An RGBA image made of square blocks of `resolution` by `resolution` pixels.
pub struct Image {
    data: Vec<u8>,
    width: usize,
    height: usize,
    resolution: usize,
}

impl View for Image {
    type V = ImageView;

    closed spec fn view(&self) -> ImageView {
        ImageView {
            width: self.width as nat,
            height: self.height as nat,
            resolution: self.resolution as nat,
            bytes: self.data@,
        }
    }
}

impl Image {
    /// A black, fully transparent image of `width` by `height` blocks.
    pub fn new(width: usize, height: usize, resolution: usize) -> (image: Image)
        requires
            width * resolution <= usize::MAX,
            height * resolution <= usize::MAX,
            4 * ((width * resolution) * (height * resolution)) <= usize::MAX,
        ensures
            image@.wf(),
            image@.width == width * resolution,
            image@.height == height * resolution,
            image@.resolution == resolution,
            forall|k: int| 0 <= k < image@.bytes.len() ==> image@.bytes[k] == 0,
    {
        let width = width * resolution;
        let height = height * resolution;
        let data = vec![0_u8; 4 * (width * height)];
        Image { data, width, height, resolution }
    }

    /// Colors the block `(i, j)`: every pixel of it takes `color`, every
    /// other pixel keeps its bytes.
    pub fn paint(&mut self, i: usize, j: usize, color: [u8; 4])
        requires
            old(self)@.wf(),
            old(self)@.block_fits(i as int, j as int),
        ensures
            final(self)@.wf(),
            final(self)@.width == old(self)@.width,
            final(self)@.height == old(self)@.height,
            final(self)@.resolution == old(self)@.resolution,
            forall|p: int|
                0 <= p < old(self)@.pixels() ==> #[trigger] final(self)@.pixel(p) == (if old(
                    self,
                )@.block(i as int, j as int).holds(p) {
                    color@
                } else {
                    old(self)@.pixel(p)
                }),
    {
        let res = self.resolution;
        let width = self.width;
        let ghost start = self@;
        let ghost block = start.block(i as int, j as int);
        let ghost count = start.pixels() as int;
        assert(4 * count == self.data.len());
        if res == 0 {
            assert forall|p: int| 0 <= p < count implies !block.holds(p) by {}
            return ;
        }
        let mut ii: usize = 0;
        while ii < res
            invariant
                ii <= res,
                res == self.resolution,
                width == self.width,
                self@ == (ImageView { bytes: self@.bytes, ..start }),
                block == start.block(i as int, j as int),
                count == start.pixels(),
                self@.bytes.len() == 4 * count == start.bytes.len(),
                4 * count <= usize::MAX,
                block.offset(res - 1, res - 1) < count,
                forall|p: int|
                    0 <= p < count ==> #[trigger] self@.pixel(p) == (if block.reached(ii as int, 0, p) {
                        color@
                    } else {
                        start.pixel(p)
                    }),
            decreases res - ii,
        {
            let mut jj: usize = 0;
            while jj < res
                invariant
                    ii < res,
                    jj <= res,
                    res == self.resolution,
                    width == self.width,
                    self@ == (ImageView { bytes: self@.bytes, ..start }),
                    block == start.block(i as int, j as int),
                    count == start.pixels(),
                    self@.bytes.len() == 4 * count == start.bytes.len(),
                    4 * count <= usize::MAX,
                    block.offset(res - 1, res - 1) < count,
                    forall|p: int|
                        0 <= p < count ==> #[trigger] self@.pixel(p) == (if block.reached(
                            ii as int,
                            jj as int,
                            p,
                        ) {
                            color@
                        } else {
                            start.pixel(p)
                        }),
                decreases res - jj,
            {
                proof {
                    block.lemma_offset_bound(ii as int, jj as int);
                    assert(width > 0) by (nonlinear_arith)
                        requires
                            0 < count == width * self.height,
                    ;
                }
                let x = i * res + ii;
                let y = j * res + jj;
                let index = 4 * (x + y * width);
                let ghost prev = self@;
                self.data[index] = color[0];
                self.data[index + 1] = color[1];
                self.data[index + 2] = color[2];
                self.data[index + 3] = color[3];
                proof {
                    let q = block.offset(ii as int, jj as int);
                    assert(index == 4 * q);
                    assert forall|p: int| 0 <= p < count implies #[trigger] self@.pixel(p) == (
                    if block.reached(ii as int, jj + 1, p) {
                        color@
                    } else {
                        start.pixel(p)
                    }) by {
                        block.lemma_reached_next(ii as int, jj as int, p);
                        if p == q {
                            assert(self@.pixel(p) =~= color@);
                        } else {
                            assert(self@.pixel(p) =~= prev.pixel(p));
                        }
                    }
                }
                jj += 1;
            }
            proof {
                assert forall|p: int| 0 <= p < count implies block.reached(ii as int, res as int, p)
                    == block.reached(ii + 1, 0, p) by {
                    block.lemma_reached_line(ii as int, p);
                }
            }
            ii += 1;
        }
        proof {
            assert forall|p: int| 0 <= p < count implies block.reached(res as int, 0, p)
                == block.holds(p) by {
                block.lemma_reached_all(p);
            }
        }
    }

    /// Width and height, in pixels.
    pub fn size(&self) -> (size: (usize, usize))
        ensures
            size.0 == self@.width,
            size.1 == self@.height,
    {
        (self.width, self.height)
    }

    /// The bytes of the image, four per pixel, row after row.
    pub fn data(&self) -> (bytes: &Vec<u8>)
        ensures
            bytes@ == self@.bytes,
    {
        &self.data
    }
}

} // verus!
