//! A read-only, bounds-checked window over a glyph's bitmap rows, with a
//! debug rendering of the pixels as text.

use vstd::prelude::*;

use crate::bitvec::{bits_of, bitvec_get, bitvec_len};
use crate::font::BoundingBox;

verus! {

/// The error of asking for a pixel outside the bitmap: the offending
/// column and row.
#[derive(Debug)]
#[non_exhaustive]
pub struct OutOfBounds(pub usize, pub usize);

/// A borrowed view over a glyph's bit rows and its bounding box.
#[derive(Clone, Copy, Debug)]
pub struct Bitmap<'a> {
    pub(crate) data: &'a Vec<bit_vec::BitVec>,
    pub(crate) bbox: BoundingBox,
}

/// The mathematical shadow of a [`Bitmap`]: the rows as bit sequences.
pub struct BitmapV {
    pub rows: Seq<Seq<bool>>,
    pub bbox: BoundingBox,
}

impl<'a> View for Bitmap<'a> {
    type V = BitmapV;

    open(crate) spec fn view(&self) -> BitmapV {
        BitmapV {
            rows: self.data@.map_values(|r: bit_vec::BitVec| bits_of(r)),
            bbox: self.bbox,
        }
    }
}

/// The row on which the glyphs align: the last row of a box that rests on
/// the baseline.
pub open spec fn spec_baseline(bbox: BoundingBox) -> int {
    bbox.height - 1 + bbox.offset_y
}

/// One rendered pixel row: two characters per pixel.
pub open spec fn render_row(row: Seq<bool>, w: int) -> Seq<char>
    decreases w,
{
    if w <= 0 {
        Seq::<char>::empty()
    } else {
        render_row(row, w - 1) + (if row[w - 1] {
            "##"@
        } else {
            ".."@
        })
    }
}

/// The horizontal separator drawn under the baseline row.
pub open spec fn render_sep(w: int) -> Seq<char>
    decreases w,
{
    if w <= 0 {
        Seq::<char>::empty()
    } else {
        render_sep(w - 1) + "--"@
    }
}

/// The first `y` rendered rows, each closed by a newline, the baseline
/// row followed by the separator.
pub open spec fn render_rows(rows: Seq<Seq<bool>>, bbox: BoundingBox, y: int) -> Seq<char>
    decreases y,
{
    if y <= 0 {
        Seq::<char>::empty()
    } else {
        render_rows(rows, bbox, y - 1) + render_row(rows[y - 1], bbox.width as int) + "\n"@ + (if y
            - 1 == spec_baseline(bbox) {
            render_sep(bbox.width as int) + "\n"@
        } else {
            Seq::<char>::empty()
        })
    }
}

/// The whole debug image of a bitmap.
pub open spec fn spec_ascii_art(rows: Seq<Seq<bool>>, bbox: BoundingBox) -> Seq<char> {
    render_rows(rows, bbox, bbox.height as int)
}

/// The first `n` rows each store the declared width.
pub open spec fn rows_cover_upto(rows: Seq<Seq<bool>>, bbox: BoundingBox, n: int) -> bool {
    forall|y: int| 0 <= y < n ==> y < rows.len() && bbox.width <= (#[trigger] rows[y]).len()
}

/// Every pixel of the declared box is stored in the rows.
pub open spec fn rows_cover(rows: Seq<Seq<bool>>, bbox: BoundingBox) -> bool {
    rows_cover_upto(rows, bbox, bbox.height as int)
}

proof fn lemma_rows_cover_upto_zero(rows: Seq<Seq<bool>>, bbox: BoundingBox)
    ensures
        rows_cover_upto(rows, bbox, 0),
{
}

proof fn lemma_rows_cover_upto_extend(rows: Seq<Seq<bool>>, bbox: BoundingBox, n: int)
    requires
        rows_cover_upto(rows, bbox, n),
        0 <= n < rows.len(),
        bbox.width <= rows[n].len(),
    ensures
        rows_cover_upto(rows, bbox, n + 1),
{
}

proof fn lemma_rows_cover_upto_at(rows: Seq<Seq<bool>>, bbox: BoundingBox, n: int, j: int)
    requires
        rows_cover_upto(rows, bbox, n),
        0 <= j < n,
    ensures
        j < rows.len(),
        bbox.width <= rows[j].len(),
{
}

/// One row that the stored box asks for, from the whole-cover condition.
pub proof fn lemma_rows_cover_at(rows: Seq<Seq<bool>>, bbox: BoundingBox, j: int)
    requires
        rows_cover(rows, bbox),
        0 <= j < bbox.height,
    ensures
        j < rows.len(),
        bbox.width <= rows[j].len(),
{
    lemma_rows_cover_upto_at(rows, bbox, bbox.height as int, j);
}

proof fn lemma_rows_cover_violated(rows: Seq<Seq<bool>>, bbox: BoundingBox, j: int)
    requires
        0 <= j < bbox.height,
        j >= rows.len() || bbox.width > rows[j].len(),
    ensures
        !rows_cover(rows, bbox),
{
    if rows_cover(rows, bbox) {
        lemma_rows_cover_at(rows, bbox, j);
    }
}

impl<'a> Bitmap<'a> {
    /// The declared width of the bitmap, in pixels.
    pub fn width(self) -> (r: usize)
        ensures
            r == self@.bbox.width as usize,
    {
        self.bbox.width as usize
    }

    /// The declared height of the bitmap, in pixels.
    pub fn height(self) -> (r: usize)
        ensures
            r == self@.bbox.height as usize,
    {
        self.bbox.height as usize
    }

    /// The row index of the font baseline.
    pub fn baseline(self) -> (r: usize)
        requires
            0 <= spec_baseline(self@.bbox) <= usize::MAX,
        ensures
            r == spec_baseline(self@.bbox),
    {
        let b: i64 = self.bbox.height as i64 - 1 + self.bbox.offset_y as i64;
        b as usize
    }

    /// The bit at column `x` of row `y`. The ask is out of bounds when
    /// `y` is past the stored rows, or `x` past the declared width or
    /// past the row's stored bits (a row byte-padded short of the width
    /// stores fewer bits than the width).
    pub fn get(self, x: usize, y: usize) -> (r: Result<bool, OutOfBounds>)
        ensures
            r == if y < self@.rows.len() && x < self@.rows[y as int].len() && x < self@.bbox.width {
                Ok::<bool, OutOfBounds>(self@.rows[y as int][x as int])
            } else {
                Err::<bool, OutOfBounds>(OutOfBounds(x, y))
            },
    {
        if y >= self.data.len() {
            return Err(OutOfBounds(x, y));
        }
        if x >= self.bbox.width as usize {
            return Err(OutOfBounds(x, y));
        }
        proof {
            assert(self@.rows[y as int] == bits_of(self.data@[y as int]));
        }
        match bitvec_get(&self.data[y], x) {
            Some(b) => Ok(b),
            None => Err(OutOfBounds(x, y)),
        }
    }

    /// Whether every pixel the declared box asks for is stored: the
    /// condition under which [`Bitmap::ascii_art`] may be called. A row
    /// byte-padded short of the declared width leaves it false.
    pub fn covered(self) -> (r: bool)
        ensures
            r == rows_cover(self@.rows, self@.bbox),
    {
        let ghost rows = self@.rows;
        let height = self.bbox.height as usize;
        let width = self.bbox.width as usize;
        proof {
            lemma_rows_cover_upto_zero(rows, self.bbox);
        }
        let mut y: usize = 0;
        while y < height
            invariant
                0 <= y <= height,
                height == self.bbox.height as usize,
                width == self.bbox.width as usize,
                rows == self@.rows,
                rows_cover_upto(rows, self.bbox, y as int),
            decreases height - y,
        {
            if y >= self.data.len() {
                proof {
                    assert(rows.len() == self.data@.len());
                    lemma_rows_cover_violated(rows, self.bbox, y as int);
                }
                return false;
            }
            proof {
                assert(rows[y as int] == bits_of(self.data@[y as int]));
            }
            if bitvec_len(&self.data[y]) < width {
                proof {
                    lemma_rows_cover_violated(rows, self.bbox, y as int);
                }
                return false;
            }
            proof {
                lemma_rows_cover_upto_extend(rows, self.bbox, y as int);
            }
            y = y + 1;
        }
        true
    }

    /// The debug image: `##` for a set pixel, `..` for a clear one, a
    /// newline after each row, and a dashed line after the baseline row.
    /// Every pixel the box declares must be stored.
    pub fn ascii_art(self) -> (r: String)
        requires
            rows_cover(self@.rows, self@.bbox),
        ensures
            r@ == spec_ascii_art(self@.rows, self@.bbox),
    {
        let ghost rows = self@.rows;
        let mut buf = String::new();
        let height = self.bbox.height as usize;
        let width = self.bbox.width as usize;
        let baseline: i64 = self.bbox.height as i64 - 1 + self.bbox.offset_y as i64;
        let mut y: usize = 0;
        while y < height
            invariant
                0 <= y <= height,
                height == self.bbox.height as usize,
                width == self.bbox.width as usize,
                baseline == spec_baseline(self.bbox),
                rows == self@.rows,
                rows_cover(rows, self.bbox),
                buf@ == render_rows(rows, self.bbox, y as int),
            decreases height - y,
        {
            let mut x: usize = 0;
            while x < width
                invariant
                    0 <= x <= width,
                    y < height,
                    height == self.bbox.height as usize,
                    width == self.bbox.width as usize,
                    rows == self@.rows,
                    rows_cover(rows, self.bbox),
                    buf@ == render_rows(rows, self.bbox, y as int) + render_row(
                        rows[y as int],
                        x as int,
                    ),
                decreases width - x,
            {
                let bit = match self.get(x, y) {
                    Ok(b) => b,
                    Err(_) => {
                        proof {
                            assert(false);
                        }
                        false
                    },
                };
                if bit {
                    buf.append("##");
                } else {
                    buf.append("..");
                }
                x = x + 1;
            }
            buf.append("\n");
            if y as i64 == baseline {
                let mut k: usize = 0;
                while k < width
                    invariant
                        0 <= k <= width,
                        y < height,
                        height == self.bbox.height as usize,
                        width == self.bbox.width as usize,
                        y as int == spec_baseline(self.bbox),
                        rows == self@.rows,
                        buf@ == render_rows(rows, self.bbox, y as int) + render_row(
                            rows[y as int],
                            width as int,
                        ) + "\n"@ + render_sep(k as int),
                    decreases width - k,
                {
                    buf.append("--");
                    k = k + 1;
                }
                buf.append("\n");
            }
            y = y + 1;
        }
        buf
    }
}

} // verus!
