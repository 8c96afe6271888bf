//! Drawing on a canvas: a row-major array of 32-bit pixels, four bytes each,
//! the least significant byte of the colour first.
use vstd::prelude::*;

use crate::font::{glyph, ink_at, GLYPH_HEIGHT, GLYPH_WIDTH};
#[allow(unused_imports)]
use crate::font::{glyph_rows, row_has_ink};

verus! {

/// Byte `k` of a colour as it lies in memory.
pub open spec fn color_byte(color: u32, k: int) -> u8 {
    if k == 0 {
        (color % 0x100) as u8
    } else if k == 1 {
        ((color / 0x100) % 0x100) as u8
    } else if k == 2 {
        ((color / 0x1_0000) % 0x100) as u8
    } else {
        (color / 0x100_0000) as u8
    }
}

/// A set of points of the plane that is drawn in one colour.
pub enum Shape {
    /// A square with its top left corner at `(x, y)`.
    Cell { x: int, y: int, size: int },
    /// The first `columns` columns of one row of a picture, each scaled to a cell.
    Row { bits: u8, columns: int, x: int, y: int, scale: int },
    /// A picture, given by its rows.
    Picture { rows: Seq<u8>, x: int, y: int, scale: int },
    /// Characters side by side, each six cells after the one before. One that the
    /// font lacks takes its place and leaves it blank.
    Text { text: Seq<char>, x: int, y: int, scale: int },
    /// Squares side by side, two of their widths apart.
    Dots { count: int, x: int, y: int, size: int },
}

impl Shape {
    /// Whether the point `(px, py)` belongs to the shape.
    pub open spec fn covers(self, px: int, py: int) -> bool {
        match self {
            Shape::Cell { x, y, size } => in_cell(x, y, size, px, py),
            Shape::Row { bits, columns, x, y, scale } => in_row(bits, columns, x, y, scale, px, py),
            Shape::Picture { rows, x, y, scale } => in_picture(rows, x, y, scale, px, py),
            Shape::Text { text, x, y, scale } => in_text(text, x, y, scale, px, py),
            Shape::Dots { count, x, y, size } => in_dots(count, x, y, size, px, py),
        }
    }

    /// Whether pixel number `p` of a surface belongs to the shape.
    pub open spec fn shows(self, width: u32, height: u32, p: int) -> bool {
        0 < width && p / (width as int) < height && self.covers(
            p % (width as int),
            p / (width as int),
        )
    }

    /// Whether the shape can be drawn: its points have 32-bit coordinates, and those
    /// on the surface lie on the canvas, at 32-bit offsets.
    pub open spec fn drawable(self, canvas: nat, width: u32, height: u32) -> bool {
        forall|px: int, py: int| #[trigger]
            self.covers(px, py) ==> px <= u32::MAX && py <= u32::MAX && (px < width && py < height
                ==> pixel_fits(canvas, py * width + px))
    }
}

/// Whether a point lies in a square.
pub open spec fn in_cell(x: int, y: int, size: int, px: int, py: int) -> bool {
    x <= px < x + size && y <= py < y + size
}

/// Whether a point lies in an inked cell of a row.
pub open spec fn in_row(
    bits: u8,
    columns: int,
    x: int,
    y: int,
    scale: int,
    px: int,
    py: int,
) -> bool {
    exists|column: int|
        0 <= column < columns && #[trigger] row_has_ink(bits, column) && in_cell(
            x + column * scale,
            y,
            scale,
            px,
            py,
        )
}

/// Whether a point lies in an inked cell of a picture.
pub open spec fn in_picture(rows: Seq<u8>, x: int, y: int, scale: int, px: int, py: int) -> bool {
    exists|row: int|
        0 <= row < rows.len() && in_row(
            #[trigger] rows[row],
            GLYPH_WIDTH as int,
            x,
            y + row * scale,
            scale,
            px,
            py,
        )
}

/// Whether a point lies in an inked cell of a text.
pub open spec fn in_text(text: Seq<char>, x: int, y: int, scale: int, px: int, py: int) -> bool {
    exists|k: int|
        0 <= k < text.len() && glyph_rows(#[trigger] text[k]) is Some && in_picture(
            glyph_rows(text[k])->0,
            x + k * (6 * scale),
            y,
            scale,
            px,
            py,
        )
}

/// Whether a point lies in one of the squares of a row of dots.
pub open spec fn in_dots(count: int, x: int, y: int, size: int, px: int, py: int) -> bool {
    exists|k: int|
        0 <= k < count && #[trigger] in_cell(x + k * (3 * size), y, size, px, py)
}

/// Whether the four bytes of pixel number `p` lie on a canvas of the given length,
/// at a 32-bit offset.
pub open spec fn pixel_fits(canvas: nat, p: int) -> bool {
    4 * p <= u32::MAX && 4 * p + 4 <= canvas
}

/// Whether `after` is the canvas `before` with the shape drawn on it.
pub open spec fn drawn(
    before: Seq<u8>,
    after: Seq<u8>,
    width: u32,
    height: u32,
    shape: Shape,
    color: u32,
) -> bool {
    &&& after.len() == before.len()
    &&& forall|i: int|
        0 <= i < before.len() ==> #[trigger] after[i] == if shape.shows(width, height, i / 4) {
            color_byte(color, i % 4)
        } else {
            before[i]
        }
}

/// Sets one pixel.
fn put_pixel(canvas: &mut [u8], pixel: usize, color: u32)
    requires
        4 * pixel + 4 <= old(canvas)@.len(),
    ensures
        final(canvas)@.len() == old(canvas)@.len(),
        forall|i: int|
            0 <= i < old(canvas)@.len() ==> #[trigger] final(canvas)@[i] == if i / 4 == pixel {
                color_byte(color, i % 4)
            } else {
                old(canvas)@[i]
            },
{
    let offset: usize = pixel * 4;
    canvas[offset] = (color % 0x100) as u8;
    canvas[offset + 1] = ((color / 0x100) % 0x100) as u8;
    canvas[offset + 2] = ((color / 0x1_0000) % 0x100) as u8;
    canvas[offset + 3] = (color / 0x100_0000) as u8;
}

/// The number of a pixel gives its coordinates back.
proof fn lemma_coordinates(width: int, px: int, py: int)
    requires
        0 <= px < width,
    ensures
        (py * width + px) % width == px,
        (py * width + px) / width == py,
{
    vstd::arithmetic::div_mod::lemma_fundamental_div_mod_converse(py * width + px, width, py, px);
}

/// Draws a square, as far as it lies on the surface.
fn draw_cell(canvas: &mut [u8], width: u32, height: u32, x: u32, y: u32, size: u32, color: u32)
    requires
        (Shape::Cell { x: x as int, y: y as int, size: size as int }).drawable(
            old(canvas)@.len(),
            width,
            height,
        ),
    ensures
        drawn(
            old(canvas)@,
            final(canvas)@,
            width,
            height,
            Shape::Cell { x: x as int, y: y as int, size: size as int },
            color,
        ),
{
    let ghost cell = Shape::Cell { x: x as int, y: y as int, size: size as int };
    let ghost before = canvas@;
    let mut dy: u32 = 0;
    while dy < size
        invariant
            dy <= size,
            cell == (Shape::Cell { x: x as int, y: y as int, size: size as int }),
            cell.drawable(before.len(), width, height),
            canvas@.len() == before.len(),
            forall|i: int|
                0 <= i < before.len() ==> #[trigger] canvas@[i] == if cell.shows(
                    width,
                    height,
                    i / 4,
                ) && (i / 4) / (width as int) < y + dy {
                    color_byte(color, i % 4)
                } else {
                    before[i]
                },
        decreases size - dy,
    {
        proof {
            assert(cell.covers(x + size - 1, y + dy));
        }
        let py: u32 = y + dy;
        let mut dx: u32 = 0;
        while dx < size
            invariant
                dx <= size,
                dy < size,
                py == y + dy,
                size > 0 ==> x + size - 1 <= u32::MAX,
                cell == (Shape::Cell { x: x as int, y: y as int, size: size as int }),
                cell.drawable(before.len(), width, height),
                canvas@.len() == before.len(),
                forall|i: int|
                    0 <= i < before.len() ==> #[trigger] canvas@[i] == if cell.shows(
                        width,
                        height,
                        i / 4,
                    ) && ((i / 4) / (width as int) < py || (i / 4) / (width as int) == py && (i / 4)
                        % (width as int) < x + dx) {
                        color_byte(color, i % 4)
                    } else {
                        before[i]
                    },
            decreases size - dx,
        {
            let px: u32 = x + dx;
            if px < width && py < height {
                proof {
                    assert(cell.covers(px as int, py as int));
                    lemma_coordinates(width as int, px as int, py as int);
                    assert(0 <= py * width) by (nonlinear_arith);
                    assert(py * width + px < 0x4000_0000);
                }
                let pixel: u32 = py * width + px;
                let ghost earlier = canvas@;
                put_pixel(canvas, pixel as usize, color);
                proof {
                    assert forall|i: int| 0 <= i < before.len() implies #[trigger] canvas@[i]
                        == if cell.shows(width, height, i / 4) && ((i / 4) / (width as int) < py
                        || (i / 4) / (width as int) == py && (i / 4) % (width as int) < x + dx
                        + 1) {
                        color_byte(color, i % 4)
                    } else {
                        before[i]
                    } by {
                        let p = i / 4;
                        assert(earlier[i] == if cell.shows(width, height, p) && (p / (
                        width as int) < py || p / (width as int) == py && p % (width as int) < x
                            + dx) {
                            color_byte(color, i % 4)
                        } else {
                            before[i]
                        });
                        vstd::arithmetic::div_mod::lemma_fundamental_div_mod(p, width as int);
                        if p / (width as int) == py && p % (width as int) == px {
                            assert((width as int) * (py as int) == py * width) by (nonlinear_arith);
                            assert(p == pixel);
                        }
                    }
                }
            }
            dx = dx + 1;
        }
        dy = dy + 1;
    }
}

/// Drawing two shapes one after the other in one colour draws their union.
proof fn lemma_union(
    before: Seq<u8>,
    between: Seq<u8>,
    after: Seq<u8>,
    width: u32,
    height: u32,
    first: Shape,
    second: Shape,
    both: Shape,
    color: u32,
)
    requires
        drawn(before, between, width, height, first, color),
        drawn(between, after, width, height, second, color),
        forall|px: int, py: int|
            #![trigger both.covers(px, py)]
            both.covers(px, py) == (first.covers(px, py) || second.covers(px, py)),
    ensures
        drawn(before, after, width, height, both, color),
{
    assert forall|i: int| 0 <= i < before.len() implies #[trigger] after[i] == if both.shows(
        width,
        height,
        i / 4,
    ) {
        color_byte(color, i % 4)
    } else {
        before[i]
    } by {
        assert(between[i] == if first.shows(width, height, i / 4) {
            color_byte(color, i % 4)
        } else {
            before[i]
        });
        let p = i / 4;
        assert(both.covers(p % (width as int), p / (width as int)) == (first.covers(
            p % (width as int),
            p / (width as int),
        ) || second.covers(p % (width as int), p / (width as int))));
    }
}

/// Draws row number `row` of a picture whose top left corner is at `(x, y)`.
fn draw_row(
    canvas: &mut [u8],
    width: u32,
    height: u32,
    bits: u8,
    x: u32,
    y: u32,
    row: u32,
    scale: u32,
    color: u32,
)
    requires
        row < GLYPH_HEIGHT,
        x + 6 * scale <= u32::MAX,
        (Shape::Row {
            bits,
            columns: GLYPH_WIDTH as int,
            x: x as int,
            y: y + (row as int) * (scale as int),
            scale: scale as int,
        }).drawable(old(canvas)@.len(), width, height),
    ensures
        drawn(
            old(canvas)@,
            final(canvas)@,
            width,
            height,
            Shape::Row {
                bits,
                columns: GLYPH_WIDTH as int,
                x: x as int,
                y: y + (row as int) * (scale as int),
                scale: scale as int,
            },
            color,
        ),
{
    let ghost before = canvas@;
    let ghost line = Shape::Row {
        bits,
        columns: GLYPH_WIDTH as int,
        x: x as int,
        y: y + (row as int) * (scale as int),
        scale: scale as int,
    };
    let mut column: u32 = 0;
    while column < GLYPH_WIDTH
        invariant
            column <= GLYPH_WIDTH,
            row < GLYPH_HEIGHT,
            x + 6 * scale <= u32::MAX,
            line == (Shape::Row {
                bits,
                columns: GLYPH_WIDTH as int,
                x: x as int,
                y: y + (row as int) * (scale as int),
                scale: scale as int,
            }),
            line.drawable(before.len(), width, height),
            drawn(
                before,
                canvas@,
                width,
                height,
                Shape::Row {
                    bits,
                    columns: column as int,
                    x: x as int,
                    y: y + (row as int) * (scale as int),
                    scale: scale as int,
                },
                color,
            ),
        decreases GLYPH_WIDTH - column,
    {
        let ghost left = Shape::Row {
            bits,
            columns: column as int,
            x: x as int,
            y: y + (row as int) * (scale as int),
            scale: scale as int,
        };
        let ghost wider = Shape::Row {
            bits,
            columns: column + 1,
            x: x as int,
            y: y + (row as int) * (scale as int),
            scale: scale as int,
        };
        let ghost cell = Shape::Cell {
            x: x + (column as int) * (scale as int),
            y: y + (row as int) * (scale as int),
            size: scale as int,
        };
        if ink_at(bits, column) {
            proof {
                assert(column * scale <= 4 * scale) by (nonlinear_arith)
                    requires
                        column <= 4,
                ;
                assert forall|px: int, py: int| #[trigger] cell.covers(px, py) implies line.covers(
                    px,
                    py,
                ) by {
                    assert(row_has_ink(bits, column as int));
                }
                assert(cell.drawable(before.len(), width, height));
                assert(row * scale <= 6 * scale) by (nonlinear_arith)
                    requires
                        row <= 6,
                ;
                if scale > 0 {
                    assert(cell.covers(
                        x + (column as int) * (scale as int),
                        y + (row as int) * (scale as int),
                    ));
                } else {
                    assert(row * scale == 0) by (nonlinear_arith)
                        requires
                            scale == 0,
                    ;
                }
            }
            let ghost between = canvas@;
            draw_cell(canvas, width, height, x + column * scale, y + row * scale, scale, color);
            proof {
                assert forall|px: int, py: int| #![trigger wider.covers(px, py)] wider.covers(
                    px,
                    py,
                ) == (left.covers(px, py) || cell.covers(px, py)) by {
                    assert(row_has_ink(bits, column as int));
                }
                lemma_union(before, between, canvas@, width, height, left, cell, wider, color);
            }
        } else {
            proof {
                assert forall|px: int, py: int| #![trigger wider.covers(px, py)] wider.covers(
                    px,
                    py,
                ) == left.covers(px, py) by {}
                lemma_same_shape(before, canvas@, width, height, left, wider, color);
            }
        }
        column = column + 1;
    }
}

/// Shapes with the same points are drawn alike.
proof fn lemma_same_shape(
    before: Seq<u8>,
    after: Seq<u8>,
    width: u32,
    height: u32,
    one: Shape,
    other: Shape,
    color: u32,
)
    requires
        drawn(before, after, width, height, one, color),
        forall|px: int, py: int|
            #![trigger other.covers(px, py)]
            other.covers(px, py) == one.covers(px, py),
    ensures
        drawn(before, after, width, height, other, color),
{
    assert forall|i: int| 0 <= i < before.len() implies #[trigger] after[i] == if other.shows(
        width,
        height,
        i / 4,
    ) {
        color_byte(color, i % 4)
    } else {
        before[i]
    } by {
        let p = i / 4;
        assert(other.covers(p % (width as int), p / (width as int)) == one.covers(
            p % (width as int),
            p / (width as int),
        ));
    }
}

/// A shape without points leaves the canvas as it is.
proof fn lemma_empty_shape(before: Seq<u8>, width: u32, height: u32, shape: Shape, color: u32)
    requires
        forall|px: int, py: int| !shape.covers(px, py),
    ensures
        drawn(before, before, width, height, shape, color),
{
}

/// Draws a picture.
fn draw_picture(
    canvas: &mut [u8],
    width: u32,
    height: u32,
    rows: &[u8; 7],
    x: u32,
    y: u32,
    scale: u32,
    color: u32,
)
    requires
        x + 6 * scale <= u32::MAX,
        (Shape::Picture { rows: rows@, x: x as int, y: y as int, scale: scale as int }).drawable(
            old(canvas)@.len(),
            width,
            height,
        ),
    ensures
        drawn(
            old(canvas)@,
            final(canvas)@,
            width,
            height,
            Shape::Picture { rows: rows@, x: x as int, y: y as int, scale: scale as int },
            color,
        ),
{
    let ghost before = canvas@;
    let ghost picture = Shape::Picture {
        rows: rows@,
        x: x as int,
        y: y as int,
        scale: scale as int,
    };
    proof {
        lemma_empty_shape(
            before,
            width,
            height,
            Shape::Picture { rows: rows@.take(0), x: x as int, y: y as int, scale: scale as int },
            color,
        );
    }
    let mut row: u32 = 0;
    while row < GLYPH_HEIGHT
        invariant
            row <= GLYPH_HEIGHT,
            rows@.len() == GLYPH_HEIGHT,
            x + 6 * scale <= u32::MAX,
            picture == (Shape::Picture {
                rows: rows@,
                x: x as int,
                y: y as int,
                scale: scale as int,
            }),
            picture.drawable(before.len(), width, height),
            drawn(
                before,
                canvas@,
                width,
                height,
                Shape::Picture {
                    rows: rows@.take(row as int),
                    x: x as int,
                    y: y as int,
                    scale: scale as int,
                },
                color,
            ),
        decreases GLYPH_HEIGHT - row,
    {
        let ghost upper = Shape::Picture {
            rows: rows@.take(row as int),
            x: x as int,
            y: y as int,
            scale: scale as int,
        };
        let ghost taller = Shape::Picture {
            rows: rows@.take(row + 1),
            x: x as int,
            y: y as int,
            scale: scale as int,
        };
        let bits: u8 = rows[row as usize];
        let ghost line = Shape::Row {
            bits,
            columns: GLYPH_WIDTH as int,
            x: x as int,
            y: y + (row as int) * (scale as int),
            scale: scale as int,
        };
        proof {
            assert forall|px: int, py: int| #[trigger] line.covers(px, py) implies picture.covers(
                px,
                py,
            ) by {
                assert(rows@[row as int] == bits);
            }
            assert(line.drawable(before.len(), width, height));
            assert forall|px: int, py: int| #![trigger taller.covers(px, py)] taller.covers(px, py)
                == (upper.covers(px, py) || line.covers(px, py)) by {
                if upper.covers(px, py) {
                    let r = choose|r: int|
                        0 <= r < row && in_row(
                            #[trigger] rows@.take(row as int)[r],
                            GLYPH_WIDTH as int,
                            x as int,
                            y + r * scale,
                            scale as int,
                            px,
                            py,
                        );
                    assert(rows@.take(row + 1)[r] == rows@.take(row as int)[r]);
                }
                if line.covers(px, py) {
                    assert(rows@.take(row + 1)[row as int] == bits);
                }
                if taller.covers(px, py) {
                    let r = choose|r: int|
                        0 <= r < row + 1 && in_row(
                            #[trigger] rows@.take(row + 1)[r],
                            GLYPH_WIDTH as int,
                            x as int,
                            y + r * scale,
                            scale as int,
                            px,
                            py,
                        );
                    if r < row {
                        assert(rows@.take(row as int)[r] == rows@.take(row + 1)[r]);
                    }
                }
            }
        }
        let ghost between = canvas@;
        draw_row(canvas, width, height, bits, x, y, row, scale, color);
        proof {
            lemma_union(before, between, canvas@, width, height, upper, line, taller, color);
        }
        row = row + 1;
    }
    assert(rows@.take(7) =~= rows@);
}

/// Whether a text can be drawn with its top left corner at `(x, y)`: the place
/// after its last character has a 32-bit coordinate, and its points can be drawn.
pub open spec fn text_fits(
    canvas: nat,
    width: u32,
    height: u32,
    text: Seq<char>,
    x: int,
    y: int,
    scale: int,
) -> bool {
    &&& x + text.len() * (6 * scale) <= u32::MAX
    &&& (Shape::Text { text, x, y, scale }).drawable(canvas, width, height)
}

/// Draws a text with its top left corner at `(x, y)`, as far as it lies on the surface.
pub fn draw_text(
    canvas: &mut [u8],
    width: u32,
    height: u32,
    text: &str,
    x: u32,
    y: u32,
    scale: u32,
    color: u32,
)
    requires
        text_fits(
            old(canvas)@.len(),
            width,
            height,
            text@,
            x as int,
            y as int,
            scale as int,
        ),
    ensures
        drawn(
            old(canvas)@,
            final(canvas)@,
            width,
            height,
            Shape::Text { text: text@, x: x as int, y: y as int, scale: scale as int },
            color,
        ),
{
    let ghost before = canvas@;
    let ghost whole = Shape::Text {
        text: text@,
        x: x as int,
        y: y as int,
        scale: scale as int,
    };
    proof {
        lemma_empty_shape(
            before,
            width,
            height,
            Shape::Text { text: text@.take(0), x: x as int, y: y as int, scale: scale as int },
            color,
        );
    }
    let mut cursor: u32 = x;
    for character in it: text.chars()
        invariant
            it.seq() == text@,
            cursor == x + it.index() * (6 * scale),
            x + text@.len() * (6 * scale) <= u32::MAX,
            whole == (Shape::Text {
                text: text@,
                x: x as int,
                y: y as int,
                scale: scale as int,
            }),
            whole.drawable(before.len(), width, height),
            drawn(
                before,
                canvas@,
                width,
                height,
                Shape::Text {
                    text: text@.take(it.index()),
                    x: x as int,
                    y: y as int,
                    scale: scale as int,
                },
                color,
            ),
    {
        let ghost k = it.index();
        let ghost left = Shape::Text {
            text: text@.take(k),
            x: x as int,
            y: y as int,
            scale: scale as int,
        };
        let ghost longer = Shape::Text {
            text: text@.take(k + 1),
            x: x as int,
            y: y as int,
            scale: scale as int,
        };
        proof {
            assert(text@[k] == character);
            assert((k + 1) * (6 * scale) <= text@.len() * (6 * scale)) by (nonlinear_arith)
                requires
                    k + 1 <= text@.len(),
            ;
            assert((k + 1) * (6 * scale) == k * (6 * scale) + 6 * scale) by (nonlinear_arith);
        }
        if let Some(rows) = glyph(character) {
            let ghost picture = Shape::Picture {
                rows: rows@,
                x: cursor as int,
                y: y as int,
                scale: scale as int,
            };
            proof {
                assert forall|px: int, py: int| #[trigger]
                    picture.covers(px, py) implies whole.covers(px, py) by {
                    assert(glyph_rows(text@[k]) is Some);
                }
                assert(picture.drawable(before.len(), width, height));
                assert forall|px: int, py: int| #![trigger longer.covers(px, py)] longer.covers(
                    px,
                    py,
                ) == (left.covers(px, py) || picture.covers(px, py)) by {
                    lemma_one_more_character(text@, k, x as int, y as int, scale as int, px, py);
                }
            }
            let ghost between = canvas@;
            draw_picture(canvas, width, height, &rows, cursor, y, scale, color);
            proof {
                lemma_union(before, between, canvas@, width, height, left, picture, longer, color);
            }
        } else {
            proof {
                assert forall|px: int, py: int| #![trigger longer.covers(px, py)] longer.covers(
                    px,
                    py,
                ) == left.covers(px, py) by {
                    lemma_one_more_character(text@, k, x as int, y as int, scale as int, px, py);
                }
                lemma_same_shape(before, canvas@, width, height, left, longer, color);
            }
        }
        cursor = cursor + 6 * scale;
    }
    assert(text@.take(text@.len() as int) =~= text@);
}

/// The points of a text are those of all but its last character, and those of its last.
proof fn lemma_one_more_character(
    text: Seq<char>,
    k: int,
    x: int,
    y: int,
    scale: int,
    px: int,
    py: int,
)
    requires
        0 <= k < text.len(),
    ensures
        in_text(text.take(k + 1), x, y, scale, px, py) == (in_text(
            text.take(k),
            x,
            y,
            scale,
            px,
            py,
        ) || glyph_rows(text[k]) is Some && in_picture(
            glyph_rows(text[k])->0,
            x + k * (6 * scale),
            y,
            scale,
            px,
            py,
        )),
{
    let shorter = text.take(k);
    let longer = text.take(k + 1);
    if in_text(shorter, x, y, scale, px, py) {
        let j = choose|j: int|
            0 <= j < shorter.len() && glyph_rows(#[trigger] shorter[j]) is Some && in_picture(
                glyph_rows(shorter[j])->0,
                x + j * (6 * scale),
                y,
                scale,
                px,
                py,
            );
        assert(longer[j] == shorter[j]);
    }
    assert(longer[k] == text[k]);
    if in_text(longer, x, y, scale, px, py) {
        let j = choose|j: int|
            0 <= j < longer.len() && glyph_rows(#[trigger] longer[j]) is Some && in_picture(
                glyph_rows(longer[j])->0,
                x + j * (6 * scale),
                y,
                scale,
                px,
                py,
            );
        if j < k {
            assert(shorter[j] == longer[j]);
        }
    }
}

/// Where a row of dots begins that is centred on a surface.
pub open spec fn dots_x(width: u32, count: int, size: int) -> int {
    let room = width - (3 * count - 2) * size;
    if room > 0 {
        room / 2
    } else {
        0
    }
}

/// The side of a password dot.
pub open spec fn dot_size(scale: u32) -> int {
    if scale > 3 {
        scale as int
    } else {
        3
    }
}

/// The dots that stand for a password of `count` characters.
pub open spec fn password_dots(width: u32, count: nat, y: u32, scale: u32) -> Shape {
    Shape::Dots {
        count: count as int,
        x: dots_x(width, count as int, dot_size(scale)),
        y: y as int,
        size: dot_size(scale),
    }
}

/// Whether the dots for a password can be drawn: the place after the last dot has a
/// 32-bit coordinate, and the points of the dots can be drawn.
pub open spec fn dots_fit(
    canvas: nat,
    width: u32,
    height: u32,
    count: nat,
    y: u32,
    scale: u32,
) -> bool {
    count > 0 ==> {
        &&& dots_x(width, count as int, dot_size(scale)) + count * (3 * dot_size(scale)) <= u32::MAX
        &&& password_dots(width, count, y, scale).drawable(canvas, width, height)
    }
}

/// Draws one dot for each of `count` characters, centred, with their upper edge at `y`.
pub fn draw_password_dots(
    canvas: &mut [u8],
    width: u32,
    height: u32,
    count: usize,
    y: u32,
    scale: u32,
    color: u32,
)
    requires
        dots_fit(old(canvas)@.len(), width, height, count as nat, y, scale),
    ensures
        drawn(
            old(canvas)@,
            final(canvas)@,
            width,
            height,
            password_dots(width, count as nat, y, scale),
            color,
        ),
{
    let ghost before = canvas@;
    let ghost dots = password_dots(width, count as nat, y, scale);
    if count == 0 {
        proof {
            lemma_empty_shape(before, width, height, dots, color);
        }
        return ;
    }
    let size: u32 = if scale > 3 {
        scale
    } else {
        3
    };
    proof {
        assert(count * (3 * size) >= 3 * size && count * (3 * size) >= count) by (nonlinear_arith)
            requires
                count >= 1,
                size >= 3,
        ;
        assert((3 * count - 2) * size == count * (3 * size) - 2 * size) by (nonlinear_arith);
        assert(count * size >= 0 && count * (3 * size) == 3 * (count * size)) by (nonlinear_arith);
        assert((count - 1) * (2 * size) == 2 * (count * size) - 2 * size) by (nonlinear_arith);
        assert((count - 1) * (2 * size) >= 0) by (nonlinear_arith)
            requires
                count >= 1,
        ;
    }
    let gap: u32 = size * 2;
    let total: u32 = count as u32 * size + (count as u32 - 1) * gap;
    let mut x: u32 = width.saturating_sub(total) / 2;
    let ghost first = x as int;
    let mut k: usize = 0;
    proof {
        assert(first == dots_x(width, count as int, size as int));
        lemma_empty_shape(
            before,
            width,
            height,
            Shape::Dots { count: 0, x: first, y: y as int, size: size as int },
            color,
        );
    }
    while k < count
        invariant
            k <= count,
            gap == size * 2,
            x == first + k * (3 * size),
            first + count * (3 * size) <= u32::MAX,
            dots == (Shape::Dots {
                count: count as int,
                x: first,
                y: y as int,
                size: size as int,
            }),
            dots.drawable(before.len(), width, height),
            drawn(
                before,
                canvas@,
                width,
                height,
                Shape::Dots { count: k as int, x: first, y: y as int, size: size as int },
                color,
            ),
        decreases count - k,
    {
        let ghost left = Shape::Dots { count: k as int, x: first, y: y as int, size: size as int };
        let ghost longer = Shape::Dots { count: k + 1, x: first, y: y as int, size: size as int };
        let ghost cell = Shape::Cell { x: x as int, y: y as int, size: size as int };
        let ghost between = canvas@;
        proof {
            assert((k + 1) * (3 * size) <= count * (3 * size)) by (nonlinear_arith)
                requires
                    k + 1 <= count,
            ;
            assert((k + 1) * (3 * size) == k * (3 * size) + 3 * size) by (nonlinear_arith);
            assert forall|px: int, py: int| #[trigger] cell.covers(px, py) implies dots.covers(
                px,
                py,
            ) by {
                assert(in_cell(first + k * (3 * size), y as int, size as int, px, py));
            }
            assert(cell.drawable(before.len(), width, height));
            assert forall|px: int, py: int| #![trigger longer.covers(px, py)] longer.covers(px, py)
                == (left.covers(px, py) || cell.covers(px, py)) by {
                if cell.covers(px, py) {
                    assert(in_cell(first + k * (3 * size), y as int, size as int, px, py));
                }
            }
        }
        draw_cell(canvas, width, height, x, y, size, color);
        proof {
            lemma_union(before, between, canvas@, width, height, left, cell, longer, color);
        }
        x = x + (size + gap);
        k = k + 1;
    }
}

/// Where a text of `count` characters begins that is centred on a surface.
pub open spec fn centered_x(width: u32, count: nat, scale: u32) -> int {
    let room = if count == 0 {
        width as int
    } else {
        width - (count * (6 * scale) - scale)
    };
    if room > 0 {
        room / 2
    } else {
        0
    }
}

/// A text that is centred on a surface.
pub open spec fn centered_text(width: u32, text: Seq<char>, y: u32, scale: u32) -> Shape {
    Shape::Text {
        text,
        x: centered_x(width, text.len(), scale),
        y: y as int,
        scale: scale as int,
    }
}

/// Whether a text can be drawn centred.
pub open spec fn centered_fits(
    canvas: nat,
    width: u32,
    height: u32,
    text: Seq<char>,
    y: u32,
    scale: u32,
) -> bool {
    &&& 6 * scale <= u32::MAX
    &&& text_fits(
        canvas,
        width,
        height,
        text,
        centered_x(width, text.len(), scale),
        y as int,
        scale as int,
    )
}

/// Draws a text centred, with its upper edge at `y`.
pub fn draw_centered(
    canvas: &mut [u8],
    width: u32,
    height: u32,
    text: &str,
    y: u32,
    scale: u32,
    color: u32,
)
    requires
        centered_fits(old(canvas)@.len(), width, height, text@, y, scale),
    ensures
        drawn(
            old(canvas)@,
            final(canvas)@,
            width,
            height,
            centered_text(width, text@, y, scale),
            color,
        ),
{
    let count: usize = text.unicode_len();
    let advance: u32 = 6 * scale;
    let text_width: u32 = if count == 0 || scale == 0 {
        0
    } else {
        proof {
            assert(count * (6 * scale) >= count && count * (6 * scale) >= 6 * scale)
                by (nonlinear_arith)
                requires
                    count >= 1,
                    scale >= 1,
            ;
        }
        count as u32 * advance - scale
    };
    proof {
        if scale == 0 {
            assert(count * (6 * scale) == 0) by (nonlinear_arith)
                requires
                    scale == 0,
            ;
        }
    }
    let x: u32 = width.saturating_sub(text_width) / 2;
    draw_text(canvas, width, height, text, x, y, scale, color);
}

/// The number of the pixel in column `px` of row `py`.
pub open spec fn pixel_number(width: u32, px: int, py: int) -> int {
    py * width + px
}

/// Whether pixel number `p` is that of a column from `left` up to `right` in a row
/// from `top` up to `bottom`, the ends left out. A column beyond the width of the
/// surface is one of a later row.
pub open spec fn in_block(width: u32, left: int, right: int, top: int, bottom: int, p: int) -> bool {
    exists|px: int, py: int|
        left <= px < right && top <= py < bottom && p == #[trigger] pixel_number(width, px, py)
}

/// Where a stretch of `extent` pixels from `start` ends.
pub open spec fn stretch_end(start: u32, extent: u32) -> int {
    if start + extent <= u32::MAX {
        start + extent
    } else {
        u32::MAX as int
    }
}

/// Whether pixel number `p` belongs to a rectangle.
pub open spec fn in_rect(
    width: u32,
    x: u32,
    y: u32,
    rect_width: u32,
    rect_height: u32,
    p: int,
) -> bool {
    in_block(width, x as int, stretch_end(x, rect_width), y as int, stretch_end(y, rect_height), p)
}

/// Whether the pixels of a rectangle have 32-bit offsets.
pub open spec fn rect_fits(width: u32, x: u32, y: u32, rect_width: u32, rect_height: u32) -> bool {
    forall|px: int, py: int|
        x <= px < stretch_end(x, rect_width) && y <= py < stretch_end(y, rect_height) ==> 4
            * #[trigger] pixel_number(width, px, py) <= u32::MAX
}

/// Fills a rectangle. What would lie beyond the canvas is left out.
pub fn fill_rect(
    canvas: &mut [u8],
    width: u32,
    x: u32,
    y: u32,
    rect_width: u32,
    rect_height: u32,
    color: u32,
)
    requires
        rect_fits(width, x, y, rect_width, rect_height),
    ensures
        final(canvas)@.len() == old(canvas)@.len(),
        forall|i: int|
            0 <= i < old(canvas)@.len() ==> #[trigger] final(canvas)@[i] == if in_rect(
                width,
                x,
                y,
                rect_width,
                rect_height,
                i / 4,
            ) && 4 * (i / 4) + 4 <= old(canvas)@.len() {
                color_byte(color, i % 4)
            } else {
                old(canvas)@[i]
            },
{
    let ghost before = canvas@;
    let right: u32 = x.saturating_add(rect_width);
    let bottom: u32 = y.saturating_add(rect_height);
    let mut row: u32 = y;
    while row < bottom
        invariant
            y <= row,
            row <= bottom || row == y,
            right == stretch_end(x, rect_width),
            bottom == stretch_end(y, rect_height),
            rect_fits(width, x, y, rect_width, rect_height),
            canvas@.len() == before.len(),
            forall|i: int|
                0 <= i < before.len() ==> #[trigger] canvas@[i] == if in_block(
                    width,
                    x as int,
                    right as int,
                    y as int,
                    row as int,
                    i / 4,
                ) && 4 * (i / 4) + 4 <= before.len() {
                    color_byte(color, i % 4)
                } else {
                    before[i]
                },
        decreases bottom - row,
    {
        let ghost above = canvas@;
        let mut column: u32 = x;
        while column < right
            invariant
                x <= column,
                column <= right || column == x,
                y <= row < bottom,
                right == stretch_end(x, rect_width),
                bottom == stretch_end(y, rect_height),
                rect_fits(width, x, y, rect_width, rect_height),
                canvas@.len() == before.len(),
                above.len() == before.len(),
                forall|i: int|
                    0 <= i < before.len() ==> #[trigger] canvas@[i] == if in_block(
                        width,
                        x as int,
                        column as int,
                        row as int,
                        row + 1,
                        i / 4,
                    ) && 4 * (i / 4) + 4 <= before.len() {
                        color_byte(color, i % 4)
                    } else {
                        above[i]
                    },
            decreases right - column,
        {
            proof {
                assert(4 * pixel_number(width, column as int, row as int) <= u32::MAX);
                assert(0 <= row * width) by (nonlinear_arith);
            }
            let pixel: u32 = row * width + column;
            let offset: usize = (pixel * 4) as usize;
            let ghost earlier = canvas@;
            if offset <= canvas.len() && canvas.len() - offset >= 4 {
                put_pixel(canvas, pixel as usize, color);
            }
            proof {
                assert forall|i: int| 0 <= i < before.len() implies #[trigger] canvas@[i]
                    == if in_block(width, x as int, column + 1, row as int, row + 1, i / 4) && 4 * (
                i / 4) + 4 <= before.len() {
                    color_byte(color, i % 4)
                } else {
                    above[i]
                } by {
                    let p = i / 4;
                    assert(earlier[i] == if in_block(
                        width,
                        x as int,
                        column as int,
                        row as int,
                        row + 1,
                        p,
                    ) && 4 * p + 4 <= before.len() {
                        color_byte(color, i % 4)
                    } else {
                        above[i]
                    });
                    assert(pixel_number(width, column as int, row as int) == pixel);
                }
            }
            column = column + 1;
        }
        proof {
            assert forall|i: int| 0 <= i < before.len() implies #[trigger] canvas@[i] == if in_block(
                width,
                x as int,
                right as int,
                y as int,
                row + 1,
                i / 4,
            ) && 4 * (i / 4) + 4 <= before.len() {
                color_byte(color, i % 4)
            } else {
                before[i]
            } by {
                let p = i / 4;
                assert(above[i] == if in_block(
                    width,
                    x as int,
                    right as int,
                    y as int,
                    row as int,
                    p,
                ) && 4 * p + 4 <= before.len() {
                    color_byte(color, i % 4)
                } else {
                    before[i]
                });
            }
        }
        row = row + 1;
    }
}

/// Fills the canvas, except for bytes at its end that make up no whole pixel.
pub fn fill(canvas: &mut [u8], color: u32)
    ensures
        final(canvas)@.len() == old(canvas)@.len(),
        forall|i: int|
            0 <= i < old(canvas)@.len() ==> #[trigger] final(canvas)@[i] == if 4 * (i / 4) + 4
                <= old(canvas)@.len() {
                color_byte(color, i % 4)
            } else {
                old(canvas)@[i]
            },
{
    let ghost before = canvas@;
    let pixels: usize = canvas.len() / 4;
    let mut pixel: usize = 0;
    while pixel < pixels
        invariant
            pixel <= pixels,
            pixels == before.len() / 4,
            canvas@.len() == before.len(),
            forall|i: int|
                0 <= i < before.len() ==> #[trigger] canvas@[i] == if i / 4 < pixel {
                    color_byte(color, i % 4)
                } else {
                    before[i]
                },
        decreases pixels - pixel,
    {
        put_pixel(canvas, pixel, color);
        pixel = pixel + 1;
    }
}

/// Drawing a shape a second time changes nothing.
pub proof fn law_drawing_twice_is_drawing_once(
    before: Seq<u8>,
    once: Seq<u8>,
    twice: Seq<u8>,
    width: u32,
    height: u32,
    shape: Shape,
    color: u32,
)
    requires
        drawn(before, once, width, height, shape, color),
        drawn(once, twice, width, height, shape, color),
    ensures
        twice == once,
{
    assert(twice =~= once);
}

} // verus!
