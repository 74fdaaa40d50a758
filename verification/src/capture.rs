//! Preparing pixels read back from the GPU for an image file.

use vstd::prelude::*;

verus! {

/// The number of bytes of one pixel: red, green, blue and alpha.
pub const BYTES_PER_PIXEL: usize = 4;

/// The image with its rows in the opposite order. `rows` is the number of
/// rows and `row_bytes` the length of each.
pub open spec fn flipped(pixels: Seq<u8>, row_bytes: int, rows: int) -> Seq<u8> {
    Seq::new(
        pixels.len(),
        |i: int|
            if 0 < row_bytes && i < rows * row_bytes {
                pixels[(rows - 1 - i / row_bytes) * row_bytes + i % row_bytes]
            } else {
                pixels[i]
            },
    )
}

/// A byte of row `y` lies inside an image of `rows` rows.
proof fn lemma_row_byte_in_image(y: int, x: int, row_bytes: int, rows: int)
    requires
        0 <= y < rows,
        0 <= x < row_bytes,
    ensures
        0 <= y * row_bytes + x < rows * row_bytes,
        (y * row_bytes + x) / row_bytes == y,
        (y * row_bytes + x) % row_bytes == x,
{
    assert(y * row_bytes >= 0) by (nonlinear_arith)
        requires
            y >= 0,
            row_bytes > 0,
    ;
    assert((y + 1) * row_bytes <= rows * row_bytes) by (nonlinear_arith)
        requires
            y + 1 <= rows,
            row_bytes > 0,
    ;
    assert((y + 1) * row_bytes == y * row_bytes + row_bytes) by (nonlinear_arith);
    vstd::arithmetic::div_mod::lemma_fundamental_div_mod_converse(
        y * row_bytes + x,
        row_bytes,
        y,
        x,
    );
}

/// Turns an image upside down in place: the GPU hands back the bottom row
/// first, image files start with the top row. The image is `width` pixels
/// wide and `height` pixels high, four bytes to the pixel.
pub fn flip_rows(pixels: &mut Vec<u8>, width: usize, height: usize)
    requires
        old(pixels).len() == width * height * BYTES_PER_PIXEL,
    ensures
        final(pixels)@ == flipped(old(pixels)@, width * BYTES_PER_PIXEL, height as int),
{
    let ghost original = pixels@;
    let ghost rb: int = width * BYTES_PER_PIXEL;
    let ghost rows: int = height as int;
    if width == 0 || height == 0 {
        proof {
            assert(width * height * BYTES_PER_PIXEL == 0) by (nonlinear_arith)
                requires
                    width == 0 || height == 0,
            ;
            assert(pixels@ =~= flipped(original, rb, rows));
        }
        return ;
    }
    proof {
        assert(width * height * BYTES_PER_PIXEL == height * (width * BYTES_PER_PIXEL))
            by (nonlinear_arith);
        assert(width * BYTES_PER_PIXEL <= height * (width * BYTES_PER_PIXEL)) by (nonlinear_arith)
            requires
                height >= 1,
        ;
    }
    let row_bytes: usize = width * BYTES_PER_PIXEL;
    let half: usize = height / 2;
    let mut y: usize = 0;
    while y < half
        invariant
            row_bytes == rb,
            rb > 0,
            rows == height,
            half == height / 2,
            y <= half,
            pixels.len() == rows * rb,
            original.len() == rows * rb,
            forall|r: int, x: int|
                0 <= r < rows && 0 <= x < rb ==> #[trigger] pixels@[r * rb + x] == if r < y || r
                    >= rows - y {
                    original[(rows - 1 - r) * rb + x]
                } else {
                    original[r * rb + x]
                },
        decreases half - y,
    {
        let top: usize = y;
        let bottom: usize = height - 1 - y;
        proof {
            lemma_row_byte_in_image(top as int, 0, rb, rows);
            lemma_row_byte_in_image(bottom as int, 0, rb, rows);
            lemma_row_byte_in_image(top as int, rb - 1, rb, rows);
            lemma_row_byte_in_image(bottom as int, rb - 1, rb, rows);
        }
        let top_start: usize = top * row_bytes;
        let bottom_start: usize = bottom * row_bytes;
        let ghost before = pixels@;
        let mut x: usize = 0;
        while x < row_bytes
            invariant
                row_bytes == rb,
                rb > 0,
                rows == height,
                x <= row_bytes,
                top == y,
                bottom == rows - 1 - y,
                top < bottom,
                bottom < rows,
                top_start == top * rb,
                bottom_start == bottom * rb,
                top_start + rb <= pixels.len(),
                bottom_start + rb <= pixels.len(),
                pixels.len() == rows * rb,
                before.len() == rows * rb,
                forall|r: int, c: int|
                    0 <= r < rows && 0 <= c < rb ==> #[trigger] pixels@[r * rb + c] == if r
                        == top && c < x {
                        before[bottom * rb + c]
                    } else if r == bottom && c < x {
                        before[top * rb + c]
                    } else {
                        before[r * rb + c]
                    },
            decreases row_bytes - x,
        {
            let a = pixels[top_start + x];
            let b = pixels[bottom_start + x];
            let ghost mid = pixels@;
            proof {
                assert(mid[top * rb + x] == before[top * rb + x]);
                assert(mid[bottom * rb + x] == before[bottom * rb + x]);
            }
            pixels.set(top_start + x, b);
            pixels.set(bottom_start + x, a);
            proof {
                assert forall|r: int, c: int| 0 <= r < rows && 0 <= c < rb implies #[trigger] pixels@[r
                    * rb + c] == if r == top && c < x + 1 {
                    before[bottom * rb + c]
                } else if r == bottom && c < x + 1 {
                    before[top * rb + c]
                } else {
                    before[r * rb + c]
                } by {
                    lemma_row_byte_in_image(r, c, rb, rows);
                    lemma_row_byte_in_image(top as int, x as int, rb, rows);
                    lemma_row_byte_in_image(bottom as int, x as int, rb, rows);
                    let i = r * rb + c;
                    if i == top * rb + x {
                        assert(r == top && c == x);
                    } else if i == bottom * rb + x {
                        assert(r == bottom && c == x);
                    } else {
                        assert(pixels@[i] == mid[i]);
                    }
                }
            }
            x += 1;
        }
        y += 1;
    }
    proof {
        let want = flipped(original, rb, rows);
        assert forall|i: int| 0 <= i < pixels.len() implies pixels@[i] == want[i] by {
            let r = i / rb;
            let c = i % rb;
            vstd::arithmetic::div_mod::lemma_fundamental_div_mod(i, rb);
            vstd::arithmetic::div_mod::lemma_mod_bound(i, rb);
            assert(rb * r == r * rb) by (nonlinear_arith);
            assert(0 <= r < rows) by (nonlinear_arith)
                requires
                    0 <= i < rows * rb,
                    i == r * rb + c,
                    0 <= c < rb,
                    rb > 0,
            ;
            assert(pixels@[r * rb + c] == if r < y || r >= rows - y {
                original[(rows - 1 - r) * rb + c]
            } else {
                original[r * rb + c]
            });
            if !(r < y || r >= rows - y) {
                // the middle row of an image with an odd number of rows
                assert(rows - 1 - r == r);
            }
        }
        assert(pixels@ =~= want);
    }
}

} // verus!
