use vstd::prelude::*;
use vstd::string::*;
use vstd::arithmetic::div_mod::lemma_div_is_ordered_by_denominator;

verus! {

/// A grayscale raster, row by row: `rows[y][x]` is the pixel at column `x` of row `y`.
pub struct Bitmap {
    pub width: usize,
    pub height: usize,
    pub rows: Vec<Vec<u8>>,
}

impl Bitmap {
    /// Every row holds `width` pixels and there are `height` rows.
    pub open spec fn wf(&self) -> bool {
        &&& self.rows@.len() == self.height
        &&& forall|y: int| 0 <= y < self.height ==> #[trigger] self.rows@[y]@.len() == self.width
    }

    pub open spec fn pixel(&self, x: int, y: int) -> u8 {
        self.rows@[y]@[x]
    }

    /// The pixels, row by row.
    pub open spec fn grid(&self) -> Seq<Seq<u8>> {
        self.rows@.map_values(|r: Vec<u8>| r@)
    }

    /// Every pixel is dark (0) or light (255).
    pub open spec fn bi_level(&self) -> bool {
        forall|x: int, y: int|
            0 <= x < self.width && 0 <= y < self.height ==> #[trigger] self.pixel(x, y) == 0
                || self.pixel(x, y) == 255
    }
}

/// The background of a label.
pub const LIGHT: u8 = 255;

/// The pixel at `(x, y)` of a label: the symbol flush in the top left corner,
/// the name's raster right below it, light everywhere else.
pub open spec fn label_pixel(symbol: &Bitmap, text: &Bitmap, x: int, y: int) -> u8 {
    if x < symbol.width && y < symbol.height {
        symbol.pixel(x, y)
    } else if symbol.height <= y < symbol.height + text.height && x < text.width {
        text.pixel(x, y - symbol.height)
    } else {
        LIGHT
    }
}

/// `label` is the `width` by `height` composite of `symbol` and `text`.
pub open spec fn composed(label: &Bitmap, symbol: &Bitmap, text: &Bitmap, width: int, height: int) -> bool {
    &&& label.wf()
    &&& label.width == width
    &&& label.height == height
    &&& forall|x: int, y: int|
        0 <= x < width && 0 <= y < height ==> #[trigger] label.pixel(x, y) == label_pixel(
            symbol,
            text,
            x,
            y,
        )
}

/// Builds a label: a light canvas, the symbol copied over its top left corner
/// pixel for pixel, and the rendered name below the symbol. Whatever does not
/// fit on the canvas is cut off, so neither part spills over the other or
/// past the edges.
pub fn compose(symbol: &Bitmap, text: &Bitmap, canvas_width: usize, canvas_height: usize) -> (label:
    Bitmap)
    requires
        symbol.wf(),
        text.wf(),
    ensures
        composed(&label, symbol, text, canvas_width as int, canvas_height as int),
{
    let mut rows: Vec<Vec<u8>> = Vec::new();
    let mut y: usize = 0;
    while y < canvas_height
        invariant
            symbol.wf(),
            text.wf(),
            y <= canvas_height,
            rows@.len() == y,
            forall|yy: int| 0 <= yy < y ==> #[trigger] rows@[yy]@.len() == canvas_width,
            forall|xx: int, yy: int|
                0 <= xx < canvas_width && 0 <= yy < y ==> #[trigger] rows@[yy]@[xx] == label_pixel(
                    symbol,
                    text,
                    xx,
                    yy,
                ),
        decreases canvas_height - y,
    {
        let mut row: Vec<u8> = Vec::new();
        let mut x: usize = 0;
        while x < canvas_width
            invariant
                symbol.wf(),
                text.wf(),
                y < canvas_height,
                x <= canvas_width,
                row@.len() == x,
                forall|xx: int| 0 <= xx < x ==> #[trigger] row@[xx] == label_pixel(symbol, text, xx, y as int),
            decreases canvas_width - x,
        {
            let p = if x < symbol.width && y < symbol.height {
                symbol.rows[y][x]
            } else if y >= symbol.height && y - symbol.height < text.height && x < text.width {
                text.rows[y - symbol.height][x]
            } else {
                LIGHT
            };
            row.push(p);
            x = x + 1;
        }
        rows.push(row);
        y = y + 1;
    }
    Bitmap { width: canvas_width, height: canvas_height, rows }
}

/// Horizontal text scale, in pixels, for a name of `len` characters on a
/// text area `width` by `height` pixels: the vertical scale is `height`, and
/// the horizontal one shrinks with the name so that it fits the width (a
/// glyph of this font advances by about half its horizontal scale).
pub open spec fn horizontal_scale(len: int, width: int, height: int) -> int {
    if len == 0 || height <= 2 * width / len {
        height
    } else {
        2 * width / len
    }
}

/// The horizontal scale to render `name` at, auto-fitted to its length.
pub fn text_scale_x(name: &str, width: u32, height: u32) -> (r: u32)
    ensures
        r == horizontal_scale(name@.len() as int, width as int, height as int),
{
    let len = name.unicode_len();
    if len == 0 {
        return height;
    }
    let fit = (2 * (width as u64)) / (len as u64);
    if (height as u64) <= fit {
        height
    } else {
        fit as u32
    }
}

/// A longer name never gets a wider text scale than a shorter one, all else
/// equal.
pub proof fn lemma_scale_shrinks_with_length(len_a: int, len_b: int, width: int, height: int)
    requires
        0 <= len_a < len_b,
        0 <= width,
    ensures
        horizontal_scale(len_a, width, height) >= horizontal_scale(len_b, width, height),
{
    if len_a > 0 {
        lemma_div_is_ordered_by_denominator(2 * width, len_a, len_b);
    }
}

} // verus!
