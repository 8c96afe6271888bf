//! What a lock surface shows: the clock, a dot for each character of the password,
//! the message after a wrong one, the button that turns the screen off and the
//! countdown.
use vstd::prelude::*;

use crate::canvas::{draw_centered, draw_password_dots, draw_text, fill, fill_rect};
#[allow(unused_imports)]
use crate::canvas::{
    centered_fits, centered_text, centered_x, color_byte, dot_size, dots_fit, dots_x, drawn,
    in_cell, in_picture, in_rect, in_row, password_dots, pixel_fits, pixel_number, rect_fits,
    stretch_end, text_fits, Shape,
};
use crate::fits::{can_draw_centered, can_draw_password_dots, can_draw_text, can_fill_rect};
#[allow(unused_imports)]
use crate::font::{glyph_rows, row_has_ink, GLYPH_WIDTH};

verus! {

/// Colour of the clock, the password dots and the label of the button.
pub const WHITE: u32 = 0xFFFF_FFFF;

/// Colour of the message after a wrong password.
pub const ERROR_COLOR: u32 = 0xFFFF_A0A0;

/// Colour of the button.
pub const BUTTON_COLOR: u32 = 0xFF2B_2145;

/// Colour of the countdown.
pub const TIMER_COLOR: u32 = 0xFFD8_D2E8;

/// Where the button that turns the screen off is, and whether it is there at all.
#[derive(Clone, Copy, PartialEq, Eq, Debug, Structural)]
pub struct ButtonRect {
    pub x: u32,
    pub y: u32,
    pub width: u32,
    pub height: u32,
    pub visible: bool,
}

/// What a surface shows.
pub struct SurfaceContent<'a> {
    pub background: u32,
    pub clock: &'a str,
    pub timer: &'a str,
    pub password_len: usize,
    pub show_error: bool,
    pub button_enabled: bool,
}

/// Turns a colour without alpha into an opaque one.
pub fn argb(rgb: u32) -> (pixel: u32)
    ensures
        pixel == 0xFF00_0000u32 | rgb,
        pixel / 0x100_0000 == 0xFF,
        pixel % 0x100_0000 == rgb % 0x100_0000,
{
    assert((0xFF00_0000u32 | rgb) / 0x100_0000 == 0xFF) by (bit_vector);
    assert((0xFF00_0000u32 | rgb) % 0x100_0000 == rgb % 0x100_0000) by (bit_vector);
    0xFF00_0000 | rgb
}

/// The number nearest to `value` from `low` to `high`.
pub open spec fn clamped(value: int, low: int, high: int) -> int {
    if value < low {
        low
    } else if value > high {
        high
    } else {
        value
    }
}

/// The number nearest to `value` from `low` to `high`.
fn clamp(value: u32, low: u32, high: u32) -> (nearest: u32)
    requires
        low <= high,
    ensures
        nearest == clamped(value as int, low as int, high as int),
{
    if value < low {
        low
    } else if value > high {
        high
    } else {
        value
    }
}

/// `a - b`, or nothing where `b` is larger.
pub open spec fn less(a: int, b: int) -> int {
    if a > b {
        a - b
    } else {
        0
    }
}

impl ButtonRect {
    /// The button of a surface: centred, a tenth of the height above the lower edge.
    pub open spec fn placed(width: u32, height: u32, visible: bool) -> ButtonRect {
        let button_width = clamped(width as int / 3, 220, 360);
        let button_height = clamped(height as int / 25, 48, 80);
        ButtonRect {
            x: (less(width as int, button_width) / 2) as u32,
            y: less(height as int, button_height + height as int / 10) as u32,
            width: button_width as u32,
            height: button_height as u32,
            visible,
        }
    }

    /// The button of a surface.
    pub fn place(width: u32, height: u32, visible: bool) -> (button: ButtonRect)
        ensures
            button == ButtonRect::placed(width, height, visible),
    {
        let button_height: u32 = clamp(height / 25, 48, 80);
        let button_width: u32 = clamp(width / 3, 220, 360);
        ButtonRect {
            x: width.saturating_sub(button_width) / 2,
            y: height.saturating_sub(button_height + height / 10),
            width: button_width,
            height: button_height,
            visible,
        }
    }

    /// Whether the point in column `x` of row `y` is on the button.
    pub open spec fn holds(self, x: int, y: int) -> bool {
        self.visible && self.x <= x < self.x + self.width && self.y <= y < self.y + self.height
    }

    /// Whether a point is on the button. The point is given by the column and the row
    /// of the pixel that it lies on.
    pub fn contains(self, x: i64, y: i64) -> (inside: bool)
        ensures
            inside == self.holds(x as int, y as int),
            inside == (self.visible && self.x <= x < self.x + self.width && self.y <= y < self.y
                + self.height),
    {
        self.visible && x >= self.x as i64 && x < self.x as i64 + self.width as i64 && y
            >= self.y as i64 && y < self.y as i64 + self.height as i64
    }
}

impl Default for ButtonRect {
    /// The button of a surface without a size: none.
    fn default() -> (button: ButtonRect)
        ensures
            button == (ButtonRect { x: 0, y: 0, width: 0, height: 0, visible: false }),
    {
        ButtonRect { x: 0, y: 0, width: 0, height: 0, visible: false }
    }
}

/// Side of the cells of the clock.
pub open spec fn clock_scale(height: u32) -> int {
    clamped(height as int / 120, 4, 12)
}

/// Side of the cells of the error message.
pub open spec fn label_scale(height: u32) -> int {
    clock_scale(height) / 2
}

/// Side of the cells of the button's label.
pub open spec fn button_scale(height: u32) -> int {
    clamped(height as int / 360, 2, 4)
}

/// Side of the cells of the countdown.
pub open spec fn timer_scale(height: u32) -> int {
    label_scale(height) / 2
}

/// Upper edge of the clock.
pub open spec fn clock_y(height: u32) -> int {
    height as int / 2 - clock_scale(height) * 10
}

/// Upper edge of the password dots.
pub open spec fn dots_y(height: u32) -> int {
    height as int / 2 + clock_scale(height) * 4
}

/// Upper edge of the error message.
pub open spec fn error_y(height: u32) -> int {
    height as int / 2 + clock_scale(height) * 25
}

/// Upper edge of the countdown.
pub open spec fn timer_y(width: u32, height: u32) -> int {
    let button = ButtonRect::placed(width, height, true);
    button.y + button.height + timer_scale(height) * 4
}

/// The clock.
pub open spec fn clock_shape(width: u32, height: u32, clock: Seq<char>) -> Shape {
    centered_text(width, clock, clock_y(height) as u32, clock_scale(height) as u32)
}

/// The password dots.
pub open spec fn dots_shape(width: u32, height: u32, count: nat) -> Shape {
    password_dots(width, count, dots_y(height) as u32, clock_scale(height) as u32)
}

/// The error message.
pub open spec fn error_shape(width: u32, height: u32) -> Shape {
    centered_text(width, "WRONG PASSWORD"@, error_y(height) as u32, label_scale(height) as u32)
}

/// Left edge of the button's label.
pub open spec fn button_text_x(width: u32, height: u32) -> int {
    let button = ButtonRect::placed(width, height, true);
    button.x + less(button.width as int, 59 * button_scale(height)) / 2
}

/// Upper edge of the button's label.
pub open spec fn button_text_y(width: u32, height: u32) -> int {
    let button = ButtonRect::placed(width, height, true);
    button.y + less(button.height as int, 7 * button_scale(height)) / 2
}

/// The label of the button.
pub open spec fn button_text_shape(width: u32, height: u32) -> Shape {
    Shape::Text {
        text: "SCREEN OFF"@,
        x: button_text_x(width, height),
        y: button_text_y(width, height),
        scale: button_scale(height),
    }
}

/// The countdown.
pub open spec fn timer_shape(width: u32, height: u32, timer: Seq<char>) -> Shape {
    centered_text(width, timer, timer_y(width, height) as u32, timer_scale(height) as u32)
}

/// Whether pixel number `p` belongs to the button.
pub open spec fn on_button(width: u32, height: u32, p: int) -> bool {
    let button = ButtonRect::placed(width, height, true);
    in_rect(width, button.x, button.y, button.width, button.height, p)
}

/// The colour of pixel number `p` of a surface: that of the uppermost thing there.
pub open spec fn surface_pixel(width: u32, height: u32, content: SurfaceContent, p: int) -> u32 {
    if timer_shape(width, height, content.timer@).shows(width, height, p) {
        TIMER_COLOR
    } else if content.button_enabled && button_text_shape(width, height).shows(width, height, p) {
        WHITE
    } else if content.button_enabled && on_button(width, height, p) {
        BUTTON_COLOR
    } else if content.show_error && error_shape(width, height).shows(width, height, p) {
        ERROR_COLOR
    } else if dots_shape(width, height, content.password_len as nat).shows(width, height, p) {
        WHITE
    } else if clock_shape(width, height, content.clock@).shows(width, height, p) {
        WHITE
    } else {
        0xFF00_0000u32 | content.background
    }
}

/// Whether a surface can be drawn: there is room for the clock above the middle, and
/// each thing that it shows fits the canvas.
pub open spec fn surface_fits(
    canvas: nat,
    width: u32,
    height: u32,
    content: SurfaceContent,
) -> bool {
    let button = ButtonRect::placed(width, height, content.button_enabled);
    &&& clock_y(height) >= 0
    &&& centered_fits(
        canvas,
        width,
        height,
        content.clock@,
        clock_y(height) as u32,
        clock_scale(height) as u32,
    )
    &&& dots_fit(
        canvas,
        width,
        height,
        content.password_len as nat,
        dots_y(height) as u32,
        clock_scale(height) as u32,
    )
    &&& content.show_error ==> centered_fits(
        canvas,
        width,
        height,
        "WRONG PASSWORD"@,
        error_y(height) as u32,
        label_scale(height) as u32,
    )
    &&& content.button_enabled ==> {
        &&& rect_fits(width, button.x, button.y, button.width, button.height)
        &&& text_fits(
            canvas,
            width,
            height,
            "SCREEN OFF"@,
            button_text_x(width, height),
            button_text_y(width, height),
            button_scale(height),
        )
    }
    &&& centered_fits(
        canvas,
        width,
        height,
        content.timer@,
        timer_y(width, height) as u32,
        timer_scale(height) as u32,
    )
}

/// Draws a whole surface.
pub fn draw_surface(canvas: &mut [u8], width: u32, height: u32, content: &SurfaceContent)
    requires
        surface_fits(old(canvas)@.len(), width, height, *content),
    ensures
        final(canvas)@.len() == old(canvas)@.len(),
        forall|i: int|
            0 <= i < old(canvas)@.len() ==> #[trigger] final(canvas)@[i] == if 4 * (i / 4) + 4
                <= old(canvas)@.len() {
                color_byte(surface_pixel(width, height, *content, i / 4), i % 4)
            } else {
                old(canvas)@[i]
            },
{
    let button = ButtonRect::place(width, height, content.button_enabled);
    let ghost c0 = canvas@;
    fill(canvas, argb(content.background));
    let ghost c1 = canvas@;

    let clock_scale: u32 = clamp(height / 120, 4, 12);
    let label_scale: u32 = clock_scale / 2;
    draw_centered(
        canvas,
        width,
        height,
        content.clock,
        height / 2 - clock_scale * 10,
        clock_scale,
        WHITE,
    );
    let ghost c2 = canvas@;
    draw_password_dots(
        canvas,
        width,
        height,
        content.password_len,
        height / 2 + clock_scale * 4,
        clock_scale,
        WHITE,
    );
    let ghost c3 = canvas@;
    if content.show_error {
        draw_centered(
            canvas,
            width,
            height,
            "WRONG PASSWORD",
            height / 2 + clock_scale * 25,
            label_scale,
            ERROR_COLOR,
        );
    }
    let ghost c4 = canvas@;
    if button.visible {
        fill_rect(
            canvas,
            width,
            button.x,
            button.y,
            button.width,
            button.height,
            BUTTON_COLOR,
        );
    }
    let ghost c5 = canvas@;
    if button.visible {
        let text_scale: u32 = clamp(height / 360, 2, 4);
        let text_width: u32 = 10 * 6 * text_scale - text_scale;
        draw_text(
            canvas,
            width,
            height,
            "SCREEN OFF",
            button.x + button.width.saturating_sub(text_width) / 2,
            button.y + button.height.saturating_sub(7 * text_scale) / 2,
            text_scale,
            WHITE,
        );
    }
    let ghost c6 = canvas@;
    let timer_scale: u32 = label_scale / 2;
    draw_centered(
        canvas,
        width,
        height,
        content.timer,
        button.y + button.height + timer_scale * 4,
        timer_scale,
        TIMER_COLOR,
    );
    proof {
        assert forall|i: int| 0 <= i < c0.len() implies #[trigger] canvas@[i] == if 4 * (i / 4) + 4
            <= c0.len() {
            color_byte(surface_pixel(width, height, *content, i / 4), i % 4)
        } else {
            c0[i]
        } by {
            let p = i / 4;
            assert(c1[i] == if 4 * p + 4 <= c0.len() {
                color_byte(0xFF00_0000u32 | content.background, i % 4)
            } else {
                c0[i]
            });
            let _ = c2[i];
            let _ = c3[i];
            let _ = c4[i];
            let _ = c5[i];
            let _ = c6[i];
        }
    }
}

/// Whether a surface can be drawn on a canvas of the given length.
pub fn can_draw_surface(canvas: usize, width: u32, height: u32, content: &SurfaceContent) -> (fits:
    bool)
    ensures
        fits == surface_fits(canvas as nat, width, height, *content),
{
    let button = ButtonRect::place(width, height, content.button_enabled);
    let clock_scale: u32 = clamp(height / 120, 4, 12);
    let label_scale: u32 = clock_scale / 2;
    let timer_scale: u32 = label_scale / 2;
    if height / 2 < clock_scale * 10 {
        return false;
    }
    if !can_draw_centered(
        canvas,
        width,
        height,
        content.clock,
        height / 2 - clock_scale * 10,
        clock_scale,
    ) {
        return false;
    }
    if !can_draw_password_dots(
        canvas,
        width,
        height,
        content.password_len,
        height / 2 + clock_scale * 4,
        clock_scale,
    ) {
        return false;
    }
    if content.show_error && !can_draw_centered(
        canvas,
        width,
        height,
        "WRONG PASSWORD",
        height / 2 + clock_scale * 25,
        label_scale,
    ) {
        return false;
    }
    if content.button_enabled {
        let text_scale: u32 = clamp(height / 360, 2, 4);
        let text_width: u32 = 59 * text_scale;
        if !can_fill_rect(width, button.x, button.y, button.width, button.height) {
            return false;
        }
        if !can_draw_text(
            canvas,
            width,
            height,
            "SCREEN OFF",
            button.x + button.width.saturating_sub(text_width) / 2,
            button.y + button.height.saturating_sub(7 * text_scale) / 2,
            text_scale,
        ) {
            return false;
        }
    }
    can_draw_centered(
        canvas,
        width,
        height,
        content.timer,
        button.y + button.height + timer_scale * 4,
        timer_scale,
    )
}

/// Every pixel of a drawn surface is opaque, whatever the background.
pub proof fn law_surface_is_opaque(width: u32, height: u32, content: SurfaceContent, p: int)
    ensures
        color_byte(surface_pixel(width, height, content, p), 3) == 0xFF,
{
    let background = content.background;
    assert((0xFF00_0000u32 | background) / 0x100_0000u32 == 0xFF) by (bit_vector);
}

/// On a surface that is wide and high enough the button lies wholly on it, centred to
/// within a pixel.
pub proof fn law_button_lies_on_surface(width: u32, height: u32, visible: bool)
    requires
        width >= 220,
        height >= 48,
    ensures
        ({
            let button = ButtonRect::placed(width, height, visible);
            let right = width - (button.x + button.width);
            &&& 0 <= right - button.x <= 1
            &&& button.y + button.height <= height
        }),
{
}

/// On a surface that is wide enough, what looks like the button is what reacts to a
/// click: the pixels of the filled rectangle are those that the button holds.
pub proof fn law_button_reacts_where_it_is_drawn(width: u32, height: u32, px: int, py: int)
    requires
        width >= 220,
        0 <= px < width,
        0 <= py < height,
    ensures
        on_button(width, height, pixel_number(width, px, py)) == ButtonRect::placed(
            width,
            height,
            true,
        ).holds(px, py),
{
    let button = ButtonRect::placed(width, height, true);
    let p = pixel_number(width, px, py);
    if on_button(width, height, p) {
        let (qx, qy) = choose|qx: int, qy: int|
            button.x <= qx < stretch_end(button.x, button.width) && button.y <= qy < stretch_end(
                button.y,
                button.height,
            ) && p == #[trigger] pixel_number(width, qx, qy);
        assert(qx < width);
        vstd::arithmetic::div_mod::lemma_fundamental_div_mod_converse(p, width as int, qy, qx);
        vstd::arithmetic::div_mod::lemma_fundamental_div_mod_converse(p, width as int, py, px);
    }
}

/// Whether the canvas has room for every pixel of a surface, at 32-bit offsets.
pub open spec fn roomy(canvas: nat, width: u32, height: u32) -> bool {
    &&& 4 * (width * height) <= canvas
    &&& 4 * (width * height) <= 0x1_0000_0000
}

/// A point on a surface fits a roomy canvas.
proof fn lemma_point_fits(canvas: nat, width: u32, height: u32, px: int, py: int)
    requires
        roomy(canvas, width, height),
        px < width,
        py < height,
    ensures
        pixel_fits(canvas, py * width + px),
{
    assert(py * width + px < width * height) by (nonlinear_arith)
        requires
            px < width,
            py + 1 <= height,
    ;
}

/// A text fits a roomy canvas, unless its coordinates are too large.
pub proof fn lemma_text_fits(
    canvas: nat,
    width: u32,
    height: u32,
    text: Seq<char>,
    x: int,
    y: int,
    scale: int,
)
    requires
        roomy(canvas, width, height),
        0 <= scale,
        x + text.len() * (6 * scale) <= u32::MAX,
        y + 7 * scale <= u32::MAX,
    ensures
        text_fits(canvas, width, height, text, x, y, scale),
{
    let whole = Shape::Text { text, x, y, scale };
    assert forall|px: int, py: int| #[trigger] whole.covers(px, py) implies px <= u32::MAX && py
        <= u32::MAX && (px < width && py < height ==> pixel_fits(canvas, py * width + px)) by {
        let k = choose|k: int|
            0 <= k < text.len() && glyph_rows(#[trigger] text[k]) is Some && in_picture(
                glyph_rows(text[k])->0,
                x + k * (6 * scale),
                y,
                scale,
                px,
                py,
            );
        let rows = glyph_rows(text[k])->0;
        let left = x + k * (6 * scale);
        let row = choose|row: int|
            0 <= row < rows.len() && in_row(
                #[trigger] rows[row],
                GLYPH_WIDTH as int,
                left,
                y + row * scale,
                scale,
                px,
                py,
            );
        let column = choose|column: int|
            0 <= column < GLYPH_WIDTH && #[trigger] row_has_ink(rows[row], column) && in_cell(
                left + column * scale,
                y + row * scale,
                scale,
                px,
                py,
            );
        assert(rows.len() == 7);
        assert(row * scale <= 6 * scale) by (nonlinear_arith)
            requires
                row <= 6,
                0 <= scale,
        ;
        assert(column * scale <= 4 * scale) by (nonlinear_arith)
            requires
                column <= 4,
                0 <= scale,
        ;
        assert(k * (6 * scale) + 6 * scale <= text.len() * (6 * scale)) by (nonlinear_arith)
            requires
                k + 1 <= text.len(),
                0 <= scale,
        ;
        if px < width && py < height {
            lemma_point_fits(canvas, width, height, px, py);
        }
    }
}

/// A centred text of moderate length and size fits a roomy canvas.
pub proof fn lemma_centered_fits(
    canvas: nat,
    width: u32,
    height: u32,
    text: Seq<char>,
    y: u32,
    scale: u32,
)
    requires
        roomy(canvas, width, height),
        scale <= 12,
        text.len() <= 0x100_0000,
        y + 7 * scale <= u32::MAX,
    ensures
        centered_fits(canvas, width, height, text, y, scale),
{
    assert(0 <= text.len() * (6 * scale) <= 0x100_0000 * 72) by (nonlinear_arith)
        requires
            text.len() <= 0x100_0000,
            scale <= 12,
    ;
    if text.len() > 0 {
        assert(text.len() * (6 * scale) >= 6 * scale) by (nonlinear_arith)
            requires
                text.len() >= 1,
        ;
    }
    lemma_text_fits(
        canvas,
        width,
        height,
        text,
        centered_x(width, text.len(), scale),
        y as int,
        scale as int,
    );
}

/// The dots for a password of moderate length fit a roomy canvas.
pub proof fn lemma_dots_fit(canvas: nat, width: u32, height: u32, count: nat, y: u32, scale: u32)
    requires
        roomy(canvas, width, height),
        scale <= 12,
        count <= 0x100_0000,
        y + 12 <= u32::MAX,
    ensures
        dots_fit(canvas, width, height, count, y, scale),
{
    let size = dot_size(scale);
    let x = dots_x(width, count as int, size);
    assert(0 <= count * (3 * size) <= 0x100_0000 * 36) by (nonlinear_arith)
        requires
            count <= 0x100_0000,
            0 <= size <= 12,
    ;
    if count > 0 {
        assert((3 * count - 2) * size >= 0) by (nonlinear_arith)
            requires
                count >= 1,
                size >= 0,
        ;
        let dots = password_dots(width, count, y, scale);
        assert forall|px: int, py: int| #[trigger] dots.covers(px, py) implies px <= u32::MAX && py
            <= u32::MAX && (px < width && py < height ==> pixel_fits(
            canvas,
            py * width + px,
        )) by {
            let k = choose|k: int|
                0 <= k < count && #[trigger] in_cell(x + k * (3 * size), y as int, size, px, py);
            assert(k * (3 * size) + 3 * size <= count * (3 * size)) by (nonlinear_arith)
                requires
                    k + 1 <= count,
                    0 <= size,
            ;
            if px < width && py < height {
                lemma_point_fits(canvas, width, height, px, py);
            }
        }
    }
}

/// The button has 32-bit offsets on a roomy canvas.
pub proof fn lemma_button_fits(canvas: nat, width: u32, height: u32)
    requires
        roomy(canvas, width, height),
        width >= 1,
        height >= 80,
    ensures
        ({
            let button = ButtonRect::placed(width, height, true);
            rect_fits(width, button.x, button.y, button.width, button.height)
        }),
{
    let button = ButtonRect::placed(width, height, true);
    assert forall|px: int, py: int|
        button.x <= px < stretch_end(button.x, button.width) && button.y <= py < stretch_end(
            button.y,
            button.height,
        ) implies 4 * #[trigger] pixel_number(width, px, py) <= u32::MAX by {
        let w = width as int;
        let h = height as int;
        assert(py < h);
        if px < w {
            lemma_point_fits(canvas, width, height, px, py);
        } else {
            assert(px < 220 && w < 220);
            if h <= 0x10_0000 {
                assert(py * w <= 0x10_0000 * 220) by (nonlinear_arith)
                    requires
                        0 <= py <= 0x10_0000,
                        0 <= w <= 220,
                ;
            } else {
                assert(py <= h - 1000);
                assert(py * w + 1000 * w <= w * h) by (nonlinear_arith)
                    requires
                        py + 1000 <= h,
                        0 <= w,
                ;
            }
        }
    }
}

/// A surface of ordinary size can always be drawn on a canvas that has room for it.
pub proof fn law_ordinary_surface_fits(
    canvas: nat,
    width: u32,
    height: u32,
    content: SurfaceContent,
)
    requires
        roomy(canvas, width, height),
        width >= 1,
        height >= 80,
        content.clock@.len() <= 0x100_0000,
        content.timer@.len() <= 0x100_0000,
        content.password_len <= 0x100_0000,
    ensures
        surface_fits(canvas, width, height, content),
{
    reveal_strlit("WRONG PASSWORD");
    reveal_strlit("SCREEN OFF");
    assert(height <= width * height) by (nonlinear_arith)
        requires
            width >= 1,
    ;
    assert(height <= 0x4000_0000);
    lemma_centered_fits(
        canvas,
        width,
        height,
        content.clock@,
        clock_y(height) as u32,
        clock_scale(height) as u32,
    );
    lemma_dots_fit(
        canvas,
        width,
        height,
        content.password_len as nat,
        dots_y(height) as u32,
        clock_scale(height) as u32,
    );
    lemma_centered_fits(
        canvas,
        width,
        height,
        "WRONG PASSWORD"@,
        error_y(height) as u32,
        label_scale(height) as u32,
    );
    lemma_button_fits(canvas, width, height);
    lemma_text_fits(
        canvas,
        width,
        height,
        "SCREEN OFF"@,
        button_text_x(width, height),
        button_text_y(width, height),
        button_scale(height),
    );
    lemma_centered_fits(
        canvas,
        width,
        height,
        content.timer@,
        timer_y(width, height) as u32,
        timer_scale(height) as u32,
    );
}

} // verus!
