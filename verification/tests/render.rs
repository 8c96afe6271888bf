use waylock_rs::canvas::{draw_centered, draw_password_dots, draw_text, fill, fill_rect};
use waylock_rs::fits::{can_draw_centered, can_draw_password_dots, can_draw_text, can_fill_rect};
use waylock_rs::font::glyph;
use waylock_rs::render::{argb, can_draw_surface, draw_surface, ButtonRect, SurfaceContent};

/// A surface that is drawn on by column and row.
struct Plane {
    width: u32,
    height: u32,
    pixels: Vec<u32>,
}

impl Plane {
    fn new(width: u32, height: u32, color: u32) -> Plane {
        Plane { width, height, pixels: vec![color; (width * height) as usize] }
    }

    fn put(&mut self, x: i64, y: i64, color: u32) {
        if x >= 0 && y >= 0 && x < self.width as i64 && y < self.height as i64 {
            self.pixels[(y * self.width as i64 + x) as usize] = color;
        }
    }

    fn square(&mut self, x: i64, y: i64, size: i64, color: u32) {
        for dy in 0..size {
            for dx in 0..size {
                self.put(x + dx, y + dy, color);
            }
        }
    }

    fn text(&mut self, text: &str, x: i64, y: i64, scale: i64, color: u32) {
        for (k, c) in text.chars().enumerate() {
            if let Some(rows) = glyph(c) {
                for (r, bits) in rows.iter().enumerate() {
                    for column in 0..5 {
                        if bits >> (4 - column) & 1 == 1 {
                            let left = x + k as i64 * 6 * scale + column * scale;
                            self.square(left, y + r as i64 * scale, scale, color);
                        }
                    }
                }
            }
        }
    }

    fn centered(&mut self, text: &str, y: i64, scale: i64, color: u32) {
        let n = text.chars().count() as i64;
        let room = self.width as i64 - (n * 6 * scale - scale).max(0);
        self.text(text, room.max(0) / 2, y, scale, color);
    }

    fn dots(&mut self, count: i64, y: i64, scale: i64, color: u32) {
        let size = scale.max(3);
        let x = (self.width as i64 - (3 * count - 2) * size).max(0) / 2;
        for k in 0..count {
            self.square(x + k * 3 * size, y, size, color);
        }
    }

    fn bytes(&self) -> Vec<u8> {
        self.pixels.iter().flat_map(|p| p.to_le_bytes()).collect()
    }
}

fn blank(width: u32, height: u32) -> Vec<u8> {
    vec![0u8; (width * height * 4) as usize]
}

#[test]
fn the_font() {
    assert_eq!(
        glyph('0'),
        Some([0b01110, 0b10001, 0b10011, 0b10101, 0b11001, 0b10001, 0b01110])
    );
    assert_eq!(
        glyph('Y'),
        Some([0b10001, 0b10001, 0b01010, 0b00100, 0b00100, 0b00100, 0b00100])
    );
    assert_eq!(glyph(' '), Some([0; 7]));
    assert_eq!(glyph('a'), None);
    assert_eq!(glyph('B'), None);
    let known: String = (0..0x300u32)
        .filter_map(char::from_u32)
        .filter(|c| glyph(*c).is_some())
        .collect();
    assert_eq!(known, " 0123456789:ACDEFGINOPRSTWY");
    for c in known.chars() {
        assert!(glyph(c).unwrap().iter().all(|row| *row < 32));
    }
    for c in "OFF IN 0123456789:WRONG PASSWORD SCREEN OFF".chars() {
        assert!(glyph(c).is_some());
    }
}

#[test]
fn opaque_colors() {
    assert_eq!(argb(0x4B3F72), 0xFF4B3F72);
    assert_eq!(argb(0), 0xFF000000);
    assert_eq!(argb(0x12345678), 0xFF345678);
}

#[test]
fn a_letter() {
    let mut canvas = blank(5, 7);
    assert!(can_draw_text(canvas.len(), 5, 7, "T", 0, 0, 1));
    draw_text(&mut canvas, 5, 7, "T", 0, 0, 1, 0x01020304);
    let ink: Vec<usize> = (0..35).filter(|p| canvas[p * 4] != 0).collect();
    assert_eq!(ink, vec![0, 1, 2, 3, 4, 7, 12, 17, 22, 27, 32]);
    assert_eq!(canvas[0..4], [4, 3, 2, 1]);
}

#[test]
fn texts() {
    for (text, x, y, scale) in [
        ("12:34", 2, 3, 1),
        ("12:34", 50, 50, 2),
        ("O\u{e4}O", 0, 0, 3),
        ("WRONG PASSWORD", 0, 55, 1),
        ("", 5, 5, 4),
        ("S", 63, 63, 1),
        ("S", 64, 64, 1),
        ("S", 3, 3, 0),
        ("S", 1000, 1000, 5),
    ] {
        let mut canvas = blank(64, 64);
        let mut plane = Plane::new(64, 64, 0);
        assert!(can_draw_text(canvas.len(), 64, 64, text, x, y, scale));
        draw_text(&mut canvas, 64, 64, text, x, y, scale, 0xFF8040C0);
        plane.text(text, x as i64, y as i64, scale as i64, 0xFF8040C0);
        assert_eq!(canvas, plane.bytes(), "{}", text);
    }
}

#[test]
fn centered_texts() {
    for (text, y, scale) in [("12:34:56", 5, 1), ("12:34:56", 9, 3), ("", 0, 2), ("F", 60, 2), ("F", 0, 0)] {
        let mut canvas = blank(61, 64);
        let mut plane = Plane::new(61, 64, 0);
        assert!(can_draw_centered(canvas.len(), 61, 64, text, y, scale));
        draw_centered(&mut canvas, 61, 64, text, y, scale, 0xFFFFA0A0);
        plane.centered(text, y as i64, scale as i64, 0xFFFFA0A0);
        assert_eq!(canvas, plane.bytes(), "{}", text);
    }
}

#[test]
fn dots() {
    for (count, y, scale) in [(0, 0, 1), (1, 0, 1), (3, 10, 4), (5, 62, 5), (40, 3, 2)] {
        let mut canvas = blank(64, 64);
        let mut plane = Plane::new(64, 64, 0);
        assert!(can_draw_password_dots(canvas.len(), 64, 64, count, y, scale));
        draw_password_dots(&mut canvas, 64, 64, count, y, scale, 0xFFFFFFFF);
        plane.dots(count as i64, y as i64, scale as i64, 0xFFFFFFFF);
        assert_eq!(canvas, plane.bytes(), "{}", count);
    }
}

#[test]
fn rectangles() {
    let mut canvas = blank(4, 4);
    assert!(can_fill_rect(4, 1, 1, 2, 2));
    fill_rect(&mut canvas, 4, 1, 1, 2, 2, 0xFF112233);
    let filled: Vec<usize> = (0..16).filter(|p| canvas[p * 4 + 3] != 0).collect();
    assert_eq!(filled, vec![5, 6, 9, 10]);
    assert_eq!(canvas[20..24], [0x33, 0x22, 0x11, 0xFF]);

    // Columns beyond the right edge go on in the next row; rows below the canvas are left out.
    let mut canvas = vec![0u8; 4 * 8 + 3];
    assert!(can_fill_rect(4, 2, 1, 3, 5));
    fill_rect(&mut canvas, 4, 2, 1, 3, 5, 0xFFFFFFFF);
    let filled: Vec<usize> = (0..8).filter(|p| canvas[p * 4] != 0).collect();
    assert_eq!(filled, vec![6, 7]);
    assert_eq!(canvas[32..], [0, 0, 0]);

    let mut canvas = blank(2, 2);
    fill_rect(&mut canvas, 2, 0, 0, 0, 9, 0xFFFFFFFF);
    assert_eq!(canvas, blank(2, 2));
}

#[test]
fn whole_pixels_are_filled() {
    let mut canvas = vec![7u8; 11];
    fill(&mut canvas, 0x01020304);
    assert_eq!(canvas, vec![4, 3, 2, 1, 4, 3, 2, 1, 7, 7, 7]);
}

#[test]
fn what_does_not_fit() {
    assert!(!can_draw_text(63 * 64 * 4, 64, 64, "S", 0, 60, 1));
    assert!(can_draw_text(63 * 64 * 4, 64, 64, "S", 0, 10, 1));
    assert!(can_draw_text(63 * 64 * 4, 64, 64, "   ", 0, 60, 1));
    assert!(!can_draw_text(usize::MAX, 64, 64, "S", u32::MAX, 0, 1));
    assert!(!can_draw_text(usize::MAX, 64, 64, "S", 0, u32::MAX, 1));
    assert!(!can_draw_text(usize::MAX, 0x10000, 0x10000, "S", 0, 0x8000, 1));
    assert!(!can_draw_centered(usize::MAX, 64, 64, "", 0, 0x2AAAAAAB));
    assert!(can_draw_centered(usize::MAX, 64, 64, "", 0, 0x2AAAAAAA));
    assert!(!can_draw_password_dots(16, 64, 64, 1, 0, 1));
    assert!(!can_draw_password_dots(usize::MAX, 64, 64, usize::MAX, 0, 1));
    assert!(!can_fill_rect(u32::MAX, 0, 0, 1, 3));
    assert!(can_fill_rect(u32::MAX, 0, 0, 0, 3));
}

#[test]
fn the_button() {
    let button = ButtonRect::place(1920, 1080, true);
    assert_eq!(
        button,
        ButtonRect { x: 780, y: 924, width: 360, height: 48, visible: true }
    );
    assert!(button.contains(780, 924) && button.contains(1139, 971));
    assert!(!button.contains(779, 924) && !button.contains(1140, 971));
    assert!(!button.contains(780, 923) && !button.contains(780, 972));
    assert!(!ButtonRect::place(1920, 1080, false).contains(800, 930));
    assert!(!ButtonRect::default().contains(0, 0));
    assert!(!button.contains(i64::MIN, i64::MAX));

    let button = ButtonRect::place(3840, 2160, true);
    assert_eq!((button.x, button.y, button.width, button.height), (1740, 1864, 360, 80));
    let button = ButtonRect::place(220, 48, true);
    assert_eq!((button.x, button.y, button.width, button.height), (0, 0, 220, 48));
    let button = ButtonRect::place(100, 50, true);
    assert_eq!((button.x, button.y, button.width, button.height), (0, 0, 220, 48));
}

fn check_surface(width: u32, height: u32, content: &SurfaceContent) {
    let mut canvas: Vec<u8> = (0..width * height * 4).map(|i| i as u8).collect();
    canvas.extend([1, 2, 3]);
    assert!(can_draw_surface(canvas.len(), width, height, content));
    draw_surface(&mut canvas, width, height, content);

    let (w, h) = (width as i64, height as i64);
    let mut plane = Plane::new(width, height, 0xFF000000 | content.background);
    let clock = (h / 120).clamp(4, 12);
    plane.centered(content.clock, h / 2 - clock * 10, clock, 0xFFFFFFFF);
    plane.dots(content.password_len as i64, h / 2 + clock * 4, clock, 0xFFFFFFFF);
    if content.show_error {
        plane.centered("WRONG PASSWORD", h / 2 + clock * 25, clock / 2, 0xFFFFA0A0);
    }
    let button_height = (h / 25).clamp(48, 80);
    let button_width = (w / 3).clamp(220, 360);
    let x = (w - button_width).max(0) / 2;
    let y = (h - button_height - h / 10).max(0);
    if content.button_enabled {
        for row in y..y + button_height {
            for column in x..x + button_width {
                let p = (row * w + column) as usize;
                if p < plane.pixels.len() {
                    plane.pixels[p] = 0xFF2B2145;
                }
            }
        }
        let scale = (h / 360).clamp(2, 4);
        plane.text(
            "SCREEN OFF",
            x + (button_width - 59 * scale).max(0) / 2,
            y + (button_height - 7 * scale).max(0) / 2,
            scale,
            0xFFFFFFFF,
        );
    }
    let timer = clock / 4;
    plane.centered(content.timer, y + button_height + timer * 4, timer, 0xFFD8D2E8);

    let size = (width * height * 4) as usize;
    assert_eq!(canvas[..size], plane.bytes()[..]);
    assert_eq!(canvas[size..], [1, 2, 3]);
    assert!((0..size / 4).all(|p| canvas[p * 4 + 3] == 0xFF));

    // A second time changes nothing.
    let once = canvas.clone();
    draw_surface(&mut canvas, width, height, content);
    assert_eq!(canvas, once);
}

#[test]
fn surfaces() {
    for (width, height) in [(640, 480), (1280, 800), (1, 80), (130, 97), (220, 240), (1600, 1500)] {
        for (password_len, show_error, button_enabled) in
            [(0, false, false), (3, true, true), (200, true, false), (1, false, true)]
        {
            check_surface(
                width,
                height,
                &SurfaceContent {
                    background: 0x4B3F72,
                    clock: "12:34:56",
                    timer: "OFF IN 09:59",
                    password_len,
                    show_error,
                    button_enabled,
                },
            );
        }
    }
}

#[test]
fn surfaces_that_do_not_fit() {
    let content = SurfaceContent {
        background: 0,
        clock: "12:34:56",
        timer: "OFF IN 10:00",
        password_len: 0,
        show_error: false,
        button_enabled: true,
    };
    assert!(can_draw_surface(640 * 80 * 4, 640, 80, &content));
    assert!(!can_draw_surface(640 * 79 * 4, 640, 79, &content));
    assert!(!can_draw_surface(640 * 300 * 4, 640, 480, &content));
    assert!(!can_draw_surface(usize::MAX, 65536, 32768, &content));
}

#[test]
fn the_button_reacts_where_it_is_drawn() {
    let (width, height) = (400u32, 300u32);
    let content = SurfaceContent {
        background: 0,
        clock: "",
        timer: "",
        password_len: 0,
        show_error: false,
        button_enabled: true,
    };
    let mut canvas = blank(width, height);
    draw_surface(&mut canvas, width, height, &content);
    let button = ButtonRect::place(width, height, true);
    for y in 0..height {
        for x in 0..width {
            let offset = ((y * width + x) * 4) as usize;
            let background = canvas[offset..offset + 4] == [0, 0, 0, 0xFF];
            assert_eq!(button.contains(x as i64, y as i64), !background);
        }
    }
}
