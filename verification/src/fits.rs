//! Finding out beforehand whether something can be drawn on a canvas.
use vstd::prelude::*;

#[allow(unused_imports)]
use crate::canvas::{
    centered_fits, dots_fit, dots_x, in_cell, in_picture, in_row, password_dots, pixel_fits,
    pixel_number, rect_fits, text_fits, Shape,
};
use crate::font::{glyph, ink_at, GLYPH_HEIGHT, GLYPH_WIDTH};
#[allow(unused_imports)]
use crate::font::{glyph_rows, row_has_ink};

verus! {

/// A pixel above and to the left of another one has a smaller number.
proof fn lemma_pixel_order(width: int, px: int, py: int, right: int, bottom: int)
    requires
        0 <= width,
        px <= right,
        py <= bottom,
    ensures
        py * width + px <= bottom * width + right,
{
    assert(py * width <= bottom * width) by (nonlinear_arith)
        requires
            0 <= width,
            py <= bottom,
    ;
}

/// Whether a square can be drawn.
fn can_draw_cell(canvas: usize, width: u32, height: u32, x: u64, y: u64, size: u32) -> (fits: bool)
    requires
        x <= 0xFF_FFFF_FFFF,
        y <= 0xFF_FFFF_FFFF,
    ensures
        fits == (Shape::Cell { x: x as int, y: y as int, size: size as int }).drawable(
            canvas as nat,
            width,
            height,
        ),
{
    let ghost cell = Shape::Cell { x: x as int, y: y as int, size: size as int };
    if size == 0 {
        return true;
    }
    let last_x: u64 = x + size as u64 - 1;
    let last_y: u64 = y + size as u64 - 1;
    if last_x > u32::MAX as u64 || last_y > u32::MAX as u64 {
        assert(cell.covers(last_x as int, last_y as int));
        return false;
    }
    if x >= width as u64 || y >= height as u64 {
        return true;
    }
    let px: u64 = if last_x < width as u64 {
        last_x
    } else {
        width as u64 - 1
    };
    let py: u64 = if last_y < height as u64 {
        last_y
    } else {
        height as u64 - 1
    };
    proof {
        assert(py * width <= 0xFFFF_FFFE * 0xFFFF_FFFF) by (nonlinear_arith)
            requires
                py <= 0xFFFF_FFFE,
                width <= 0xFFFF_FFFF,
        ;
        assert(cell.covers(px as int, py as int));
        assert forall|qx: int, qy: int| #[trigger] cell.covers(qx, qy) && qx < width && qy
            < height implies qy * width + qx <= py * width + px by {
            lemma_pixel_order(width as int, qx, qy, px as int, py as int);
        }
    }
    let pixel: u64 = py * width as u64 + px;
    pixel < 0x4000_0000 && pixel * 4 + 4 <= canvas as u64
}

/// Whether a row of a picture can be drawn.
fn can_draw_row(
    canvas: usize,
    width: u32,
    height: u32,
    bits: u8,
    x: u32,
    y: u64,
    scale: u32,
) -> (fits: bool)
    requires
        y <= 0xFF_FFFF_FFFF,
    ensures
        fits == (Shape::Row {
            bits,
            columns: GLYPH_WIDTH as int,
            x: x as int,
            y: y as int,
            scale: scale as int,
        }).drawable(canvas as nat, width, height),
{
    let ghost row = Shape::Row {
        bits,
        columns: GLYPH_WIDTH as int,
        x: x as int,
        y: y as int,
        scale: scale as int,
    };
    let mut column: u32 = 0;
    while column < GLYPH_WIDTH
        invariant
            column <= GLYPH_WIDTH,
            y <= 0xFF_FFFF_FFFF,
            row == (Shape::Row {
                bits,
                columns: GLYPH_WIDTH as int,
                x: x as int,
                y: y as int,
                scale: scale as int,
            }),
            forall|c: int|
                0 <= c < column && #[trigger] row_has_ink(bits, c) ==> (Shape::Cell {
                    x: x + c * scale,
                    y: y as int,
                    size: scale as int,
                }).drawable(canvas as nat, width, height),
        decreases GLYPH_WIDTH - column,
    {
        if ink_at(bits, column) {
            proof {
                assert(column * scale <= 4 * scale) by (nonlinear_arith)
                    requires
                        column <= 4,
                ;
            }
            if !can_draw_cell(
                canvas,
                width,
                height,
                x as u64 + column as u64 * scale as u64,
                y,
                scale,
            ) {
                proof {
                    let cell = Shape::Cell {
                        x: x + (column as int) * (scale as int),
                        y: y as int,
                        size: scale as int,
                    };
                    assert forall|px: int, py: int| #[trigger]
                        cell.covers(px, py) implies row.covers(px, py) by {
                        assert(row_has_ink(bits, column as int));
                    }
                    if row.drawable(canvas as nat, width, height) {
                        assert(cell.drawable(canvas as nat, width, height));
                    }
                }
                return false;
            }
        }
        column = column + 1;
    }
    proof {
        assert forall|px: int, py: int| #[trigger] row.covers(px, py) implies px <= u32::MAX && py
            <= u32::MAX && (px < width && py < height ==> pixel_fits(
            canvas as nat,
            py * width + px,
        )) by {
            let c = choose|c: int|
                0 <= c < GLYPH_WIDTH && #[trigger] row_has_ink(bits, c) && in_cell(
                    x + c * scale,
                    y as int,
                    scale as int,
                    px,
                    py,
                );
            let cell = Shape::Cell { x: x + c * scale, y: y as int, size: scale as int };
            assert(cell.covers(px, py));
        }
    }
    true
}

/// Whether a picture can be drawn.
fn can_draw_picture(
    canvas: usize,
    width: u32,
    height: u32,
    rows: &[u8; 7],
    x: u32,
    y: u32,
    scale: u32,
) -> (fits: bool)
    ensures
        fits == (Shape::Picture {
            rows: rows@,
            x: x as int,
            y: y as int,
            scale: scale as int,
        }).drawable(canvas as nat, width, height),
{
    let ghost picture = Shape::Picture {
        rows: rows@,
        x: x as int,
        y: y as int,
        scale: scale as int,
    };
    let mut row: u32 = 0;
    while row < GLYPH_HEIGHT
        invariant
            row <= GLYPH_HEIGHT,
            rows@.len() == GLYPH_HEIGHT,
            picture == (Shape::Picture {
                rows: rows@,
                x: x as int,
                y: y as int,
                scale: scale as int,
            }),
            forall|r: int|
                #![trigger rows@[r]]
                0 <= r < row ==> (Shape::Row {
                    bits: rows@[r],
                    columns: GLYPH_WIDTH as int,
                    x: x as int,
                    y: y + r * scale,
                    scale: scale as int,
                }).drawable(canvas as nat, width, height),
        decreases GLYPH_HEIGHT - row,
    {
        let bits: u8 = rows[row as usize];
        proof {
            assert(row * scale <= 6 * scale) by (nonlinear_arith)
                requires
                    row <= 6,
            ;
        }
        if !can_draw_row(
            canvas,
            width,
            height,
            bits,
            x,
            y as u64 + row as u64 * scale as u64,
            scale,
        ) {
            proof {
                let line = Shape::Row {
                    bits,
                    columns: GLYPH_WIDTH as int,
                    x: x as int,
                    y: y + (row as int) * (scale as int),
                    scale: scale as int,
                };
                assert forall|px: int, py: int| #[trigger]
                    line.covers(px, py) implies picture.covers(px, py) by {
                    assert(rows@[row as int] == bits);
                }
                if picture.drawable(canvas as nat, width, height) {
                    assert(line.drawable(canvas as nat, width, height));
                }
            }
            return false;
        }
        row = row + 1;
    }
    proof {
        assert forall|px: int, py: int| #[trigger] picture.covers(px, py) implies px <= u32::MAX
            && py <= u32::MAX && (px < width && py < height ==> pixel_fits(
            canvas as nat,
            py * width + px,
        )) by {
            let r = choose|r: int|
                0 <= r < rows@.len() && in_row(
                    #[trigger] rows@[r],
                    GLYPH_WIDTH as int,
                    x as int,
                    y + r * scale,
                    scale as int,
                    px,
                    py,
                );
            let line = Shape::Row {
                bits: rows@[r],
                columns: GLYPH_WIDTH as int,
                x: x as int,
                y: y + r * scale,
                scale: scale as int,
            };
            assert(line.covers(px, py));
        }
    }
    true
}

/// Whether a text can be drawn with its top left corner at `(x, y)`.
pub fn can_draw_text(
    canvas: usize,
    width: u32,
    height: u32,
    text: &str,
    x: u32,
    y: u32,
    scale: u32,
) -> (fits: bool)
    ensures
        fits == text_fits(
            canvas as nat,
            width,
            height,
            text@,
            x as int,
            y as int,
            scale as int,
        ),
{
    let count: usize = text.unicode_len();
    let advance: u64 = 6 * scale as u64;
    proof {
        assert(count * advance <= 0xFFFF_FFFF_FFFF_FFFF * 0x6_0000_0000) by (nonlinear_arith)
            requires
                count <= 0xFFFF_FFFF_FFFF_FFFF,
                advance <= 0x6_0000_0000,
        ;
    }
    if x as u128 + count as u128 * advance as u128 > u32::MAX as u128 {
        return false;
    }
    let ghost whole = Shape::Text {
        text: text@,
        x: x as int,
        y: y as int,
        scale: scale as int,
    };
    let mut cursor: u64 = x as u64;
    for character in it: text.chars()
        invariant
            it.seq() == text@,
            advance == 6 * scale,
            cursor == x + it.index() * (6 * scale),
            x + text@.len() * (6 * scale) <= u32::MAX,
            whole == (Shape::Text {
                text: text@,
                x: x as int,
                y: y as int,
                scale: scale as int,
            }),
            forall|k: int|
                #![trigger text@[k]]
                0 <= k < it.index() && glyph_rows(text@[k]) is Some ==> (Shape::Picture {
                    rows: glyph_rows(text@[k])->0,
                    x: x + k * (6 * scale),
                    y: y as int,
                    scale: scale as int,
                }).drawable(canvas as nat, width, height),
    {
        let ghost k = it.index();
        proof {
            assert(text@[k] == character);
            assert((k + 1) * (6 * scale) <= text@.len() * (6 * scale)) by (nonlinear_arith)
                requires
                    k + 1 <= text@.len(),
            ;
            assert((k + 1) * (6 * scale) == k * (6 * scale) + 6 * scale) by (nonlinear_arith);
        }
        if let Some(rows) = glyph(character) {
            if !can_draw_picture(canvas, width, height, &rows, cursor as u32, y, scale) {
                proof {
                    let picture = Shape::Picture {
                        rows: rows@,
                        x: cursor as int,
                        y: y as int,
                        scale: scale as int,
                    };
                    assert forall|px: int, py: int| #[trigger]
                        picture.covers(px, py) implies whole.covers(px, py) by {
                        assert(glyph_rows(text@[k]) is Some);
                    }
                    if whole.drawable(canvas as nat, width, height) {
                        assert(picture.drawable(canvas as nat, width, height));
                    }
                }
                return false;
            }
        }
        cursor = cursor + advance;
    }
    proof {
        assert forall|px: int, py: int| #[trigger] whole.covers(px, py) implies px <= u32::MAX && py
            <= u32::MAX && (px < width && py < height ==> pixel_fits(
            canvas as nat,
            py * width + px,
        )) by {
            let k = choose|k: int|
                0 <= k < text@.len() && glyph_rows(#[trigger] text@[k]) is Some && in_picture(
                    glyph_rows(text@[k])->0,
                    x + k * (6 * scale),
                    y as int,
                    scale as int,
                    px,
                    py,
                );
            let picture = Shape::Picture {
                rows: glyph_rows(text@[k])->0,
                x: x + k * (6 * scale),
                y: y as int,
                scale: scale as int,
            };
            assert(picture.covers(px, py));
        }
    }
    true
}

/// Whether a text can be drawn centred.
pub fn can_draw_centered(
    canvas: usize,
    width: u32,
    height: u32,
    text: &str,
    y: u32,
    scale: u32,
) -> (fits: bool)
    ensures
        fits == centered_fits(canvas as nat, width, height, text@, y, scale),
{
    if scale > 0x2AAA_AAAA {
        return false;
    }
    let count: usize = text.unicode_len();
    let advance: u64 = 6 * scale as u64;
    proof {
        assert(0 <= count * advance <= 0xFFFF_FFFF_FFFF_FFFF * 0x6_0000_0000) by (nonlinear_arith)
            requires
                count <= 0xFFFF_FFFF_FFFF_FFFF,
                advance <= 0x6_0000_0000,
        ;
        if count >= 1 {
            assert(count * (6 * scale) >= 6 * scale) by (nonlinear_arith)
                requires
                    count >= 1,
            ;
        }
    }
    let total: u128 = count as u128 * advance as u128;
    if total > u32::MAX as u128 {
        return false;
    }
    let text_width: u32 = if count == 0 {
        0
    } else {
        total as u32 - scale
    };
    let x: u32 = width.saturating_sub(text_width) / 2;
    can_draw_text(canvas, width, height, text, x, y, scale)
}

/// Whether the dots for a password of `count` characters can be drawn.
pub fn can_draw_password_dots(
    canvas: usize,
    width: u32,
    height: u32,
    count: usize,
    y: u32,
    scale: u32,
) -> (fits: bool)
    ensures
        fits == dots_fit(canvas as nat, width, height, count as nat, y, scale),
{
    if count == 0 {
        return true;
    }
    let size: u32 = if scale > 3 {
        scale
    } else {
        3
    };
    let advance: u64 = 3 * size as u64;
    let ghost dots = password_dots(width, count as nat, y, scale);
    proof {
        assert(0 <= count * advance <= 0xFFFF_FFFF_FFFF_FFFF * 0x3_0000_0000) by (nonlinear_arith)
            requires
                count <= 0xFFFF_FFFF_FFFF_FFFF,
                advance <= 0x3_0000_0000,
        ;
        assert((3 * count - 2) * size == count * (3 * size) - 2 * size) by (nonlinear_arith);
        assert(count * (3 * size) >= 3 * size) by (nonlinear_arith)
            requires
                count >= 1,
        ;
    }
    let total: u128 = count as u128 * advance as u128;
    if total > u32::MAX as u128 {
        return false;
    }
    let first: u32 = width.saturating_sub(total as u32 - 2 * size) / 2;
    assert(first == dots_x(width, count as int, size as int));
    if first as u128 + total > u32::MAX as u128 {
        return false;
    }
    let mut x: u64 = first as u64;
    let mut k: usize = 0;
    while k < count
        invariant
            k <= count,
            advance == 3 * size,
            x == first + k * (3 * size),
            first + count * (3 * size) <= u32::MAX,
            dots == password_dots(width, count as nat, y, scale),
            dots == (Shape::Dots {
                count: count as int,
                x: first as int,
                y: y as int,
                size: size as int,
            }),
            forall|j: int|
                0 <= j < k ==> (#[trigger] dot(first as int, j, y as int, size as int)).drawable(
                    canvas as nat,
                    width,
                    height,
                ),
        decreases count - k,
    {
        proof {
            assert((k + 1) * (3 * size) <= count * (3 * size)) by (nonlinear_arith)
                requires
                    k + 1 <= count,
            ;
            assert((k + 1) * (3 * size) == k * (3 * size) + 3 * size) by (nonlinear_arith);
        }
        if !can_draw_cell(canvas, width, height, x, y as u64, size) {
            proof {
                let cell = dot(first as int, k as int, y as int, size as int);
                assert forall|px: int, py: int| #[trigger]
                    cell.covers(px, py) implies dots.covers(px, py) by {
                    assert(in_cell(first + k * (3 * size), y as int, size as int, px, py));
                }
                if dots.drawable(canvas as nat, width, height) {
                    assert(cell.drawable(canvas as nat, width, height));
                }
            }
            return false;
        }
        x = x + advance;
        k = k + 1;
    }
    proof {
        assert forall|px: int, py: int| #[trigger] dots.covers(px, py) implies px <= u32::MAX && py
            <= u32::MAX && (px < width && py < height ==> pixel_fits(
            canvas as nat,
            py * width + px,
        )) by {
            let j = choose|j: int|
                0 <= j < count && #[trigger] in_cell(
                    first + j * (3 * size),
                    y as int,
                    size as int,
                    px,
                    py,
                );
            assert(dot(first as int, j, y as int, size as int).covers(px, py));
        }
    }
    true
}

/// Dot number `k` of a row of dots.
spec fn dot(first: int, k: int, y: int, size: int) -> Shape {
    Shape::Cell { x: first + k * (3 * size), y, size }
}

/// Whether a rectangle can be filled.
pub fn can_fill_rect(width: u32, x: u32, y: u32, rect_width: u32, rect_height: u32) -> (fits: bool)
    ensures
        fits == rect_fits(width, x, y, rect_width, rect_height),
{
    let right: u32 = x.saturating_add(rect_width);
    let bottom: u32 = y.saturating_add(rect_height);
    if x >= right || y >= bottom {
        return true;
    }
    let px: u64 = right as u64 - 1;
    let py: u64 = bottom as u64 - 1;
    proof {
        assert(py * width <= 0xFFFF_FFFE * 0xFFFF_FFFF) by (nonlinear_arith)
            requires
                py <= 0xFFFF_FFFE,
                width <= 0xFFFF_FFFF,
        ;
        assert forall|qx: int, qy: int| x <= qx < right && y <= qy < bottom implies #[trigger]
            pixel_number(width, qx, qy) <= py * width + px by {
            lemma_pixel_order(width as int, qx, qy, px as int, py as int);
        }
        assert(pixel_number(width, px as int, py as int) == py * width + px);
    }
    let pixel: u64 = py * width as u64 + px;
    pixel < 0x4000_0000
}

} // verus!
