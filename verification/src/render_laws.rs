//! What can be seen on a surface: where each thing lies, how it looks and what hides what.
use vstd::prelude::*;

#[allow(unused_imports)]
use crate::canvas::{
    centered_text, color_byte, dot_size, dots_fit, dots_x, drawn, in_cell, in_dots, in_picture,
    in_rect, in_row, in_text, password_dots, pixel_fits, pixel_number, stretch_end, text_fits,
    Shape,
};
#[allow(unused_imports)]
use crate::font::{glyph_rows, row_has_ink, GLYPH_WIDTH};
#[allow(unused_imports)]
use crate::render::{
    button_scale, button_text_shape, clock_scale, clock_shape, dots_shape, error_shape,
    label_scale, on_button, surface_pixel, timer_scale, timer_shape, ButtonRect, SurfaceContent,
};

verus! {

/// The four bytes of a colour are its digits to the base 256, the lowest first.
pub proof fn law_bytes_make_up_the_color(color: u32)
    ensures
        color_byte(color, 0) + 0x100 * color_byte(color, 1) + 0x1_0000 * color_byte(color, 2)
            + 0x100_0000 * color_byte(color, 3) == color,
{
}

/// Whether nothing is drawn over the background of a pixel.
pub open spec fn bare(width: u32, height: u32, content: SurfaceContent, p: int) -> bool {
    &&& !timer_shape(width, height, content.timer@).shows(width, height, p)
    &&& content.button_enabled ==> !on_button(width, height, p) && !button_text_shape(
        width,
        height,
    ).shows(width, height, p)
    &&& content.show_error ==> !error_shape(width, height).shows(width, height, p)
    &&& !dots_shape(width, height, content.password_len as nat).shows(width, height, p)
    &&& !clock_shape(width, height, content.clock@).shows(width, height, p)
}

/// Where nothing is drawn over it, a pixel has the red, green and blue of the background
/// that was set, and is opaque.
pub proof fn law_background_is_the_color_that_was_set(
    width: u32,
    height: u32,
    content: SurfaceContent,
    p: int,
)
    requires
        bare(width, height, content, p),
    ensures
        ({
            let pixel = surface_pixel(width, height, content, p);
            &&& color_byte(pixel, 0) == content.background % 0x100
            &&& color_byte(pixel, 1) == (content.background / 0x100) % 0x100
            &&& color_byte(pixel, 2) == (content.background / 0x1_0000) % 0x100
            &&& color_byte(pixel, 3) == 0xFF
        }),
{
    let rgb = content.background;
    assert((0xFF00_0000u32 | rgb) % 0x100 == rgb % 0x100) by (bit_vector);
    assert(((0xFF00_0000u32 | rgb) / 0x100) % 0x100 == (rgb / 0x100) % 0x100) by (bit_vector);
    assert(((0xFF00_0000u32 | rgb) / 0x1_0000) % 0x100 == (rgb / 0x1_0000) % 0x100) by (bit_vector);
    assert((0xFF00_0000u32 | rgb) / 0x100_0000 == 0xFF) by (bit_vector);
}

/// Surfaces with two colours differ wherever their background can be seen.
pub proof fn law_different_colors_look_different(
    width: u32,
    height: u32,
    first: SurfaceContent,
    second: SurfaceContent,
    p: int,
)
    requires
        bare(width, height, first, p),
        bare(width, height, second, p),
        first.background % 0x100_0000 != second.background % 0x100_0000,
    ensures
        surface_pixel(width, height, first, p) != surface_pixel(width, height, second, p),
{
    if surface_pixel(width, height, first, p) == surface_pixel(width, height, second, p) {
        law_background_is_the_color_that_was_set(width, height, first, p);
        law_background_is_the_color_that_was_set(width, height, second, p);
        lemma_low_bytes(first.background);
        lemma_low_bytes(second.background);
        assert(false);
    }
}

/// Red, green and blue make up what is left of a colour without its highest byte.
proof fn lemma_low_bytes(color: u32)
    ensures
        color % 0x100_0000 == color % 0x100 + 0x100 * ((color / 0x100) % 0x100) + 0x1_0000 * ((color
            / 0x1_0000) % 0x100),
{
}

/// A point of a surface shows a shape if and only if it belongs to it; a point below the
/// surface shows none.
pub proof fn law_pixels_show_their_points(
    shape: Shape,
    width: u32,
    height: u32,
    px: int,
    py: int,
)
    requires
        0 <= px < width,
        0 <= py,
    ensures
        shape.shows(width, height, py * width + px) == (py < height && shape.covers(px, py)),
{
    vstd::arithmetic::div_mod::lemma_fundamental_div_mod_converse(
        py * width + px,
        width as int,
        py,
        px,
    );
}

/// The countdown lies over all else.
pub proof fn law_countdown_is_on_top(
    width: u32,
    height: u32,
    content: SurfaceContent,
    px: int,
    py: int,
)
    requires
        0 <= px < width,
        0 <= py < height,
        timer_shape(width, height, content.timer@).covers(px, py),
    ensures
        surface_pixel(width, height, content, py * width + px) == 0xFFD8_D2E8u32,
{
    law_pixels_show_their_points(
        timer_shape(width, height, content.timer@),
        width,
        height,
        px,
        py,
    );
}

/// The button, if there is one, lies over all but the countdown: a dark rectangle with a
/// white label.
pub proof fn law_button_is_a_rectangle_with_a_label(
    width: u32,
    height: u32,
    content: SurfaceContent,
    px: int,
    py: int,
)
    requires
        0 <= px < width,
        0 <= py < height,
        content.button_enabled,
        !timer_shape(width, height, content.timer@).covers(px, py),
    ensures
        ({
            let button = ButtonRect::placed(width, height, true);
            let pixel = surface_pixel(width, height, content, py * width + px);
            let label = button_text_shape(width, height).covers(px, py);
            &&& label ==> pixel == 0xFFFF_FFFFu32
            &&& !label && on_button(width, height, py * width + px) ==> pixel == 0xFF2B_2145u32
            &&& !label && button.x <= px < button.x + button.width && button.y <= py < button.y
                + button.height ==> pixel == 0xFF2B_2145u32
        }),
{
    let button = ButtonRect::placed(width, height, true);
    law_pixels_show_their_points(
        timer_shape(width, height, content.timer@),
        width,
        height,
        px,
        py,
    );
    law_pixels_show_their_points(button_text_shape(width, height), width, height, px, py);
    if button.x <= px < button.x + button.width && button.y <= py < button.y + button.height {
        assert(px < stretch_end(button.x, button.width));
        assert(py < stretch_end(button.y, button.height));
        assert(pixel_number(width, px, py) == py * width + px);
    }
}

/// The message after a wrong password is seen where neither the countdown nor the button
/// hides it.
pub proof fn law_message_is_seen(
    width: u32,
    height: u32,
    content: SurfaceContent,
    px: int,
    py: int,
)
    requires
        0 <= px < width,
        0 <= py < height,
        content.show_error,
        error_shape(width, height).covers(px, py),
        !timer_shape(width, height, content.timer@).covers(px, py),
        content.button_enabled ==> !button_text_shape(width, height).covers(px, py) && !on_button(
            width,
            height,
            py * width + px,
        ),
    ensures
        surface_pixel(width, height, content, py * width + px) == 0xFFFF_A0A0u32,
{
    let timer = timer_shape(width, height, content.timer@);
    law_pixels_show_their_points(timer, width, height, px, py);
    law_pixels_show_their_points(button_text_shape(width, height), width, height, px, py);
    law_pixels_show_their_points(error_shape(width, height), width, height, px, py);
}

/// The clock and the dots are white where nothing hides them.
pub proof fn law_clock_and_dots_are_seen(
    width: u32,
    height: u32,
    content: SurfaceContent,
    px: int,
    py: int,
)
    requires
        0 <= px < width,
        0 <= py < height,
        clock_shape(width, height, content.clock@).covers(px, py) || dots_shape(
            width,
            height,
            content.password_len as nat,
        ).covers(px, py),
        !timer_shape(width, height, content.timer@).covers(px, py),
        content.show_error ==> !error_shape(width, height).covers(px, py),
        content.button_enabled ==> !button_text_shape(width, height).covers(px, py) && !on_button(
            width,
            height,
            py * width + px,
        ),
    ensures
        surface_pixel(width, height, content, py * width + px) == 0xFFFF_FFFFu32,
{
    let timer = timer_shape(width, height, content.timer@);
    let clock = clock_shape(width, height, content.clock@);
    let dots = dots_shape(width, height, content.password_len as nat);
    law_pixels_show_their_points(timer, width, height, px, py);
    law_pixels_show_their_points(clock, width, height, px, py);
    law_pixels_show_their_points(dots, width, height, px, py);
    law_pixels_show_their_points(button_text_shape(width, height), width, height, px, py);
    law_pixels_show_their_points(error_shape(width, height), width, height, px, py);
}

/// Whether two surfaces show the same, apart from the switches and the password.
pub open spec fn alike(first: SurfaceContent, second: SurfaceContent) -> bool {
    first.background == second.background && first.clock@ == second.clock@ && first.timer@
        == second.timer@
}

/// The message is seen only if it is to be shown: switching it on changes no pixel but
/// those that it covers.
pub proof fn law_message_changes_nothing_else(
    width: u32,
    height: u32,
    with: SurfaceContent,
    without: SurfaceContent,
    px: int,
    py: int,
)
    requires
        0 <= px < width,
        0 <= py < height,
        alike(with, without),
        with.password_len == without.password_len,
        with.button_enabled == without.button_enabled,
        !without.show_error,
        !error_shape(width, height).covers(px, py),
    ensures
        surface_pixel(width, height, with, py * width + px) == surface_pixel(
            width,
            height,
            without,
            py * width + px,
        ),
{
    law_pixels_show_their_points(error_shape(width, height), width, height, px, py);
}

/// The button is seen only if there is one: it changes no pixel but those of its
/// rectangle and of its label.
pub proof fn law_button_changes_nothing_else(
    width: u32,
    height: u32,
    with: SurfaceContent,
    without: SurfaceContent,
    px: int,
    py: int,
)
    requires
        0 <= px < width,
        0 <= py < height,
        alike(with, without),
        with.password_len == without.password_len,
        with.show_error == without.show_error,
        !without.button_enabled,
        !on_button(width, height, py * width + px),
        !button_text_shape(width, height).covers(px, py),
    ensures
        surface_pixel(width, height, with, py * width + px) == surface_pixel(
            width,
            height,
            without,
            py * width + px,
        ),
{
    law_pixels_show_their_points(button_text_shape(width, height), width, height, px, py);
}

/// The length of the password is seen in the dots only.
pub proof fn law_dots_change_nothing_else(
    width: u32,
    height: u32,
    first: SurfaceContent,
    second: SurfaceContent,
    px: int,
    py: int,
)
    requires
        0 <= px < width,
        0 <= py < height,
        alike(first, second),
        first.show_error == second.show_error,
        first.button_enabled == second.button_enabled,
        !dots_shape(width, height, first.password_len as nat).covers(px, py),
        !dots_shape(width, height, second.password_len as nat).covers(px, py),
    ensures
        surface_pixel(width, height, first, py * width + px) == surface_pixel(
            width,
            height,
            second,
            py * width + px,
        ),
{
    let fewer = dots_shape(width, height, first.password_len as nat);
    let more = dots_shape(width, height, second.password_len as nat);
    law_pixels_show_their_points(fewer, width, height, px, py);
    law_pixels_show_their_points(more, width, height, px, py);
}

/// Where the button lies: a third of the width, from 220 to 360 pixels, by a twenty-fifth
/// of the height, from 48 to 80; centred to within a pixel, and a tenth of the height
/// above the lower edge. On a surface that is too small for that it begins at the edge.
pub proof fn law_button_has_its_place(width: u32, height: u32, visible: bool)
    ensures
        ({
            let button = ButtonRect::placed(width, height, visible);
            let below = height - (button.y + button.height);
            &&& button.visible == visible
            &&& 220 <= button.width <= 360
            &&& button.width > 220 ==> 3 * button.width <= width
            &&& button.width < 360 ==> width < 3 * (button.width + 1)
            &&& 48 <= button.height <= 80
            &&& button.height > 48 ==> 25 * button.height <= height
            &&& button.height < 80 ==> height < 25 * (button.height + 1)
            &&& width >= button.width ==> 0 <= width - button.width - 2 * button.x <= 1
            &&& width < button.width ==> button.x == 0
            &&& button.y > 0 ==> 10 * below <= height < 10 * (below + 1)
            &&& button.y == 0 ==> 10 * (height - button.height) <= height
        }),
{
}

/// The pixels of the button are those of its columns and rows.
pub proof fn law_button_covers_its_columns_and_rows(width: u32, height: u32, p: int)
    ensures
        ({
            let button = ButtonRect::placed(width, height, true);
            on_button(width, height, p) <==> exists|px: int, py: int|
                button.x <= px < button.x + button.width && button.y <= py < button.y
                    + button.height && p == #[trigger] pixel_number(width, px, py)
        }),
{
    let button = ButtonRect::placed(width, height, true);
    law_rectangle_covers_its_columns_and_rows(
        width,
        button.x,
        button.y,
        button.width,
        button.height,
        p,
    );
}

/// The pixels of a rectangle are those of its columns and rows that have a 32-bit number,
/// counted row by row.
pub proof fn law_rectangle_covers_its_columns_and_rows(
    width: u32,
    x: u32,
    y: u32,
    rect_width: u32,
    rect_height: u32,
    p: int,
)
    ensures
        in_rect(width, x, y, rect_width, rect_height, p) <==> exists|px: int, py: int|
            x <= px < x + rect_width && px < u32::MAX && y <= py < y + rect_height && py < u32::MAX
                && p == #[trigger] pixel_number(width, px, py),
        forall|px: int, py: int| #[trigger] pixel_number(width, px, py) == py * width + px,
{
}

/// To draw a shape gives its points the colour and leaves all others as they are.
pub proof fn law_drawing_changes_only_the_shape(
    before: Seq<u8>,
    after: Seq<u8>,
    width: u32,
    height: u32,
    shape: Shape,
    color: u32,
    px: int,
    py: int,
    k: int,
)
    requires
        drawn(before, after, width, height, shape, color),
        0 <= px < width,
        0 <= py,
        0 <= k < 4,
        4 * (py * width + px) + k < before.len(),
    ensures
        after.len() == before.len(),
        ({
            let i = 4 * (py * width + px) + k;
            &&& py < height && shape.covers(px, py) ==> after[i] == color_byte(color, k)
            &&& py >= height || !shape.covers(px, py) ==> after[i] == before[i]
        }),
{
    let i = 4 * (py * width + px) + k;
    assert(0 <= py * width) by (nonlinear_arith)
        requires
            0 <= py,
    ;
    law_pixels_show_their_points(shape, width, height, px, py);
    assert(i / 4 == py * width + px && i % 4 == k);
    let _ = after[i];
}

/// A text is centred to within a pixel; one that is too wide begins at the left edge.
pub proof fn law_texts_are_centered(width: u32, text: Seq<char>, y: u32, scale: u32)
    requires
        scale > 0,
    ensures
        centered_text(width, text, y, scale) matches Shape::Text { text: shown, x, y: top, scale: side }
            && shown == text && top == y && side == scale && {
            let extent = if text.len() == 0 {
                0
            } else {
                (6 * text.len() - 1) * scale
            };
            &&& extent <= width ==> 0 <= width - extent - 2 * x <= 1
            &&& extent > width ==> x == 0
        },
{
    let count = text.len() as int;
    let side = scale as int;
    assert(count * (6 * side) - side == (6 * count - 1) * side) by (nonlinear_arith);
}

/// There is one dot for each character of the password, centred to within a pixel; a row
/// that is too wide begins at the left edge.
pub proof fn law_dots_are_centered(width: u32, count: nat, y: u32, scale: u32)
    ensures
        password_dots(width, count, y, scale) matches Shape::Dots { count: shown, x, y: top, size }
            && shown == count && top == y && (scale >= 3 ==> size == scale) && (scale < 3 ==> size
            == 3) && {
            let extent = (3 * count - 2) * size;
            &&& count > 0 && extent <= width ==> 0 <= width - extent - 2 * x <= 1
            &&& count > 0 && extent > width ==> x == 0
        },
{
}

/// Where on a surface the things lie, and in which size.
pub proof fn law_things_have_their_places(
    width: u32,
    height: u32,
    clock: Seq<char>,
    timer: Seq<char>,
    count: nat,
)
    requires
        80 <= height <= 0x4000_0000,
    ensures
        ({
            let large = clock_scale(height);
            let medium = label_scale(height);
            let small = timer_scale(height);
            let side = button_scale(height);
            let button = ButtonRect::placed(width, height, true);
            let middle = height as int / 2;
            &&& 4 <= large <= 12
            &&& large > 4 ==> 120 * large <= height
            &&& large < 12 ==> height < 120 * (large + 1)
            &&& 2 * medium <= large <= 2 * medium + 1
            &&& 2 * small <= medium <= 2 * small + 1
            &&& 2 <= side <= 4
            &&& side > 2 ==> 360 * side <= height
            &&& side < 4 ==> height < 360 * (side + 1)
            &&& clock_shape(width, height, clock) == centered_text(
                width,
                clock,
                (middle - 10 * large) as u32,
                large as u32,
            )
            &&& dots_shape(width, height, count) == password_dots(
                width,
                count,
                (middle + 4 * large) as u32,
                large as u32,
            )
            &&& error_shape(width, height) == centered_text(
                width,
                "WRONG PASSWORD"@,
                (middle + 25 * large) as u32,
                medium as u32,
            )
            &&& timer_shape(width, height, timer) == centered_text(
                width,
                timer,
                (button.y + button.height + 4 * small) as u32,
                small as u32,
            )
            &&& button_text_shape(width, height) matches Shape::Text { text, x, y, scale }
                && text == "SCREEN OFF"@ && scale == side && {
                &&& 59 * side <= button.width ==> 0 <= button.width - 59 * side - 2 * (x - button.x)
                    <= 1
                &&& 59 * side > button.width ==> x == button.x
                &&& 0 <= button.height - 7 * side - 2 * (y - button.y) <= 1
            }
        }),
{
}

/// If a cell begins not after a point and ends behind it, it is the cell of the point.
proof fn lemma_same_cell(a: int, b: int, side: int, rest: int)
    requires
        0 <= rest < side,
        a * side <= b * side + rest < a * side + side,
    ensures
        a == b,
{
    assert(a == b) by (nonlinear_arith)
        requires
            0 <= rest < side,
            a * side <= b * side + rest < a * side + side,
    ;
}

/// Each character of a text shows its picture, in cells of the given side: the characters
/// stand in order, six cells apart, with a blank column behind each.
pub proof fn law_text_shows_its_pictures(
    text: Seq<char>,
    x: int,
    y: int,
    scale: int,
    k: int,
    column: int,
    row: int,
    dx: int,
    dy: int,
)
    requires
        0 <= dx < scale,
        0 <= dy < scale,
        0 <= k < text.len(),
        0 <= column < 6,
        0 <= row < 7,
    ensures
        (Shape::Text { text, x, y, scale }).covers(
            x + (6 * k + column) * scale + dx,
            y + row * scale + dy,
        ) <==> column < 5 && glyph_rows(text[k]) is Some && row_has_ink(
            glyph_rows(text[k])->0[row],
            column,
        ),
{
    let px = x + (6 * k + column) * scale + dx;
    let py = y + row * scale + dy;
    assert((6 * k + column) * scale == k * (6 * scale) + column * scale) by (nonlinear_arith);
    if in_text(text, x, y, scale, px, py) {
        let other = choose|j: int|
            0 <= j < text.len() && glyph_rows(#[trigger] text[j]) is Some && in_picture(
                glyph_rows(text[j])->0,
                x + j * (6 * scale),
                y,
                scale,
                px,
                py,
            );
        let rows = glyph_rows(text[other])->0;
        let left = x + other * (6 * scale);
        let r = choose|r: int|
            0 <= r < rows.len() && in_row(
                #[trigger] rows[r],
                GLYPH_WIDTH as int,
                left,
                y + r * scale,
                scale,
                px,
                py,
            );
        let c = choose|c: int|
            0 <= c < GLYPH_WIDTH && #[trigger] row_has_ink(rows[r], c) && in_cell(
                left + c * scale,
                y + r * scale,
                scale,
                px,
                py,
            );
        assert((6 * other + c) * scale == other * (6 * scale) + c * scale) by (nonlinear_arith);
        lemma_same_cell(6 * other + c, 6 * k + column, scale, dx);
        lemma_same_cell(r, row, scale, dy);
        assert(other == k && c == column);
    }
    if column < 5 && glyph_rows(text[k]) is Some && row_has_ink(
        glyph_rows(text[k])->0[row],
        column,
    ) {
        let rows = glyph_rows(text[k])->0;
        let left = x + k * (6 * scale);
        assert(rows.len() == 7);
        assert(in_cell(left + column * scale, y + row * scale, scale, px, py));
        assert(in_row(rows[row], GLYPH_WIDTH as int, left, y + row * scale, scale, px, py));
        assert(in_picture(rows, left, y, scale, px, py));
    }
}

/// A text covers nothing outside of its box.
pub proof fn law_text_stays_in_its_box(
    text: Seq<char>,
    x: int,
    y: int,
    scale: int,
    px: int,
    py: int,
)
    requires
        scale > 0,
        (Shape::Text { text, x, y, scale }).covers(px, py),
    ensures
        x <= px < x + (6 * text.len() - 1) * scale,
        y <= py < y + 7 * scale,
{
    let k = choose|k: int|
        0 <= k < text.len() && glyph_rows(#[trigger] text[k]) is Some && in_picture(
            glyph_rows(text[k])->0,
            x + k * (6 * scale),
            y,
            scale,
            px,
            py,
        );
    let rows = glyph_rows(text[k])->0;
    let left = x + k * (6 * scale);
    let row = choose|row: int|
        0 <= row < rows.len() && in_row(
            #[trigger] rows[row],
            GLYPH_WIDTH as int,
            left,
            y + row * scale,
            scale,
            px,
            py,
        );
    let column = choose|column: int|
        0 <= column < GLYPH_WIDTH && #[trigger] row_has_ink(rows[row], column) && in_cell(
            left + column * scale,
            y + row * scale,
            scale,
            px,
            py,
        );
    let count = text.len() as int;
    assert(rows.len() == 7);
    assert(0 <= row * scale <= 6 * scale) by (nonlinear_arith)
        requires
            0 <= row <= 6,
            0 < scale,
    ;
    assert(0 <= k * (6 * scale) + column * scale) by (nonlinear_arith)
        requires
            0 <= k,
            0 <= column,
            0 < scale,
    ;
    assert(k * (6 * scale) + column * scale + scale <= (6 * count - 1) * scale) by (nonlinear_arith)
        requires
            k + 1 <= count,
            column <= 4,
            0 < scale,
    ;
}

/// The dots are squares, as many as there are characters, with two of their widths
/// between one and the next; nothing else belongs to them.
pub proof fn law_dots_are_squares(
    count: int,
    x: int,
    y: int,
    size: int,
    k: int,
    dx: int,
    dy: int,
)
    requires
        size > 0,
        0 <= dx < 3 * size,
    ensures
        (Shape::Dots { count, x, y, size }).covers(x + k * (3 * size) + dx, y + dy) <==> 0 <= k
            < count && dx < size && 0 <= dy < size,
{
    let px = x + k * (3 * size) + dx;
    let py = y + dy;
    if in_dots(count, x, y, size, px, py) {
        let other = choose|j: int|
            0 <= j < count && #[trigger] in_cell(x + j * (3 * size), y, size, px, py);
        lemma_same_cell(other, k, 3 * size, dx);
    }
    if 0 <= k < count && dx < size && 0 <= dy < size {
        assert(in_cell(x + k * (3 * size), y, size, px, py));
    }
}

/// A text can be drawn if its box has 32-bit coordinates and each of its points that lies
/// on the surface has its four bytes on the canvas, at a 32-bit offset.
pub proof fn law_text_fits_where_its_points_do(
    canvas: nat,
    width: u32,
    height: u32,
    text: Seq<char>,
    x: int,
    y: int,
    scale: int,
)
    requires
        scale > 0,
        x + text.len() * (6 * scale) <= u32::MAX,
        y + 7 * scale <= u32::MAX,
        forall|px: int, py: int| #[trigger]
            (Shape::Text { text, x, y, scale }).covers(px, py) && px < width && py < height ==> 4 * (
            py * width + px) <= u32::MAX && 4 * (py * width + px) + 4 <= canvas,
    ensures
        text_fits(canvas, width, height, text, x, y, scale),
{
    let whole = Shape::Text { text, x, y, scale };
    let count = text.len() as int;
    assert((6 * count - 1) * scale <= count * (6 * scale)) by (nonlinear_arith)
        requires
            scale > 0,
    ;
    assert forall|px: int, py: int| #[trigger] whole.covers(px, py) implies px <= u32::MAX && py
        <= u32::MAX && (px < width && py < height ==> pixel_fits(canvas, py * width + px)) by {
        law_text_stays_in_its_box(text, x, y, scale, px, py);
    }
}

/// The dots can be drawn if their row has 32-bit coordinates and each of their points that
/// lies on the surface has its four bytes on the canvas, at a 32-bit offset.
pub proof fn law_dots_fit_where_their_points_do(
    canvas: nat,
    width: u32,
    height: u32,
    count: nat,
    y: u32,
    scale: u32,
)
    requires
        ({
            let size = if scale >= 3 {
                scale as int
            } else {
                3
            };
            &&& width + count * (3 * size) <= u32::MAX
            &&& y + size <= u32::MAX
        }),
        forall|px: int, py: int| #[trigger]
            password_dots(width, count, y, scale).covers(px, py) && px < width && py < height ==> 4
                * (py * width + px) <= u32::MAX && 4 * (py * width + px) + 4 <= canvas,
    ensures
        dots_fit(canvas, width, height, count, y, scale),
{
    let size = dot_size(scale);
    let x = dots_x(width, count as int, size);
    let dots = password_dots(width, count, y, scale);
    if count > 0 {
        assert((3 * count - 2) * size >= 0) by (nonlinear_arith)
            requires
                count >= 1,
                size >= 0,
        ;
        assert forall|px: int, py: int| #[trigger] dots.covers(px, py) implies px <= u32::MAX && py
            <= u32::MAX && (px < width && py < height ==> pixel_fits(
            canvas,
            py * width + px,
        )) by {
            let k = choose|k: int|
                0 <= k < count && #[trigger] in_cell(x + k * (3 * size), y as int, size, px, py);
            assert(k * (3 * size) + 3 * size <= count * (3 * size)) by (nonlinear_arith)
                requires
                    k + 1 <= count,
                    0 <= size,
            ;
        }
    }
}

} // verus!
