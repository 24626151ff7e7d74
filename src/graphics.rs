//! Screen geometry and colours.
use vstd::prelude::*;

verus! {

/// A point of the screen plane.
#[derive(Clone, Copy, Debug, PartialEq, Eq, Structural)]
pub struct Point<T> {
    pub x: T,
    pub y: T,
}

/// A width and a height.
#[derive(Clone, Copy, Debug, PartialEq, Eq, Structural)]
pub struct Size<T> {
    pub w: T,
    pub h: T,
}

/// A rectangle: its top-left corner and its size.
#[derive(Clone, Copy, Debug, PartialEq, Eq, Structural)]
pub struct Rect {
    pub left_top: Point<isize>,
    pub size: Size<usize>,
}

/// The origin.
pub open spec fn point_zero() -> Point<isize> {
    Point { x: 0, y: 0 }
}

/// The point that stands for "nowhere".
pub open spec fn point_infinite() -> Point<isize> {
    Point { x: isize::MIN, y: isize::MIN }
}

/// The empty rectangle: no size, placed nowhere.
pub open spec fn rect_empty() -> Rect {
    Rect { left_top: point_infinite(), size: Size { w: 0, h: 0 } }
}

impl Point<isize> {
    /// The origin.
    pub fn zero() -> (r: Point<isize>)
        ensures
            r == point_zero(),
    {
        Point { x: 0, y: 0 }
    }

    /// The point that stands for "nowhere".
    pub fn infinite() -> (r: Point<isize>)
        ensures
            r == point_infinite(),
    {
        Point { x: isize::MIN, y: isize::MIN }
    }
}

impl Size<usize> {
    /// The empty size.
    pub fn empty() -> (r: Size<usize>)
        ensures
            r.w == 0 && r.h == 0,
    {
        Size { w: 0, h: 0 }
    }
}

/// The right and bottom edges of the rectangle are `isize` values.
pub open spec fn rect_wf(r: Rect) -> bool {
    &&& r.size.w <= isize::MAX
    &&& r.size.h <= isize::MAX
    &&& r.left_top.x + r.size.w <= isize::MAX
    &&& r.left_top.y + r.size.h <= isize::MAX
}

/// The right edge (exclusive).
pub open spec fn right_of(r: Rect) -> int {
    r.left_top.x + r.size.w
}

/// The bottom edge (exclusive).
pub open spec fn bottom_of(r: Rect) -> int {
    r.left_top.y + r.size.h
}

/// The point lies in the rectangle.
pub open spec fn rect_contains(r: Rect, p: Point<isize>) -> bool {
    r.left_top.x <= p.x < right_of(r) && r.left_top.y <= p.y < bottom_of(r)
}

pub open spec fn max_int(a: int, b: int) -> int {
    if a >= b { a } else { b }
}

pub open spec fn min_int(a: int, b: int) -> int {
    if a <= b { a } else { b }
}

impl Point<isize> {
    /// Whether the point lies in `rect`.
    pub fn inside(&self, rect: &Rect) -> (r: bool)
        requires
            rect_wf(*rect),
        ensures
            r == rect_contains(*rect, *self),
    {
        rect.contains(self)
    }
}

impl Rect {
    /// The empty rectangle.
    pub fn empty() -> (r: Rect)
        ensures
            r == rect_empty(),
    {
        Rect { left_top: Point::infinite(), size: Size::empty() }
    }

    pub fn size(&self) -> (r: Size<usize>)
        ensures
            r == self.size,
    {
        self.size
    }

    pub fn left_top(&self) -> (r: Point<isize>)
        ensures
            r == self.left_top,
    {
        self.left_top
    }

    pub fn left(&self) -> (r: isize)
        ensures
            r == self.left_top.x,
    {
        self.left_top.x
    }

    pub fn top(&self) -> (r: isize)
        ensures
            r == self.left_top.y,
    {
        self.left_top.y
    }

    pub fn width(&self) -> (r: usize)
        ensures
            r == self.size.w,
    {
        self.size.w
    }

    pub fn height(&self) -> (r: usize)
        ensures
            r == self.size.h,
    {
        self.size.h
    }

    /// The right edge, one past the last column.
    pub fn right(&self) -> (r: isize)
        requires
            rect_wf(*self),
        ensures
            r == right_of(*self),
    {
        self.left_top.x + self.size.w as isize
    }

    /// The bottom edge, one past the last row.
    pub fn bottom(&self) -> (r: isize)
        requires
            rect_wf(*self),
        ensures
            r == bottom_of(*self),
    {
        self.left_top.y + self.size.h as isize
    }

    /// The intersection of two rectangles, or the empty rectangle when they
    /// do not meet.
    pub fn join(&self, rect: Rect) -> (r: Rect)
        requires
            rect_wf(*self),
            rect_wf(rect),
        ensures
            ({
                let left = max_int(self.left_top.x as int, rect.left_top.x as int);
                let top = max_int(self.left_top.y as int, rect.left_top.y as int);
                let right = min_int(right_of(*self), right_of(rect));
                let bottom = min_int(bottom_of(*self), bottom_of(rect));
                if left <= right && top <= bottom {
                    r.left_top.x == left && r.left_top.y == top && r.size.w == right - left && r.size.h
                        == bottom - top
                } else {
                    r == rect_empty()
                }
            }),
            rect_wf(r),
    {
        let left: isize = if self.left() >= rect.left() { self.left() } else { rect.left() };
        let top: isize = if self.top() >= rect.top() { self.top() } else { rect.top() };
        let right: isize = if self.right() <= rect.right() { self.right() } else { rect.right() };
        let bottom: isize = if self.bottom() <= rect.bottom() { self.bottom() } else { rect.bottom() };
        if left <= right && top <= bottom {
            Rect {
                left_top: Point { x: left, y: top },
                size: Size { w: (right - left) as usize, h: (bottom - top) as usize },
            }
        } else {
            Rect::empty()
        }
    }

    /// Whether `point` lies in the rectangle.
    pub fn contains(&self, point: &Point<isize>) -> (r: bool)
        requires
            rect_wf(*self),
        ensures
            r == rect_contains(*self, *point),
    {
        point.x >= self.left() && point.x < self.right() && point.y >= self.top() && point.y < self.bottom()
    }
}

/// A colour of the 256-colour palette: two bits each of red, green and blue.
#[derive(Clone, Copy, Debug, PartialEq, Eq, Structural)]
pub struct Color8 {
    pub value: u8,
}

/// A 32-bit colour: alpha, red, green, blue, from the high byte down.
#[derive(Clone, Copy, Debug, PartialEq, Eq, Structural)]
pub struct Color {
    pub value: u32,
}

/// The colour value with the given channels.
pub open spec fn argb(a: u8, r: u8, g: u8, b: u8) -> int {
    b + 256 * g + 65536 * r + 16777216 * a
}

impl Color {
    pub fn from_argb(alpha: u8, red: u8, green: u8, blue: u8) -> (r: Color)
        ensures
            r.value == argb(alpha, red, green, blue),
    {
        let value: u32 = blue as u32 | (green as u32) << 8u32 | (red as u32) << 16u32 | (alpha as u32)
            << 24u32;
        let (a, rr, g, b) = (alpha as u32, red as u32, green as u32, blue as u32);
        assert(b | g << 8u32 | rr << 16u32 | a << 24u32 == b + 256 * g + 65536 * rr + 16777216 * a)
            by (bit_vector)
            requires a < 256, rr < 256, g < 256, b < 256;
        Color { value }
    }

    pub fn from_rgb(red: u8, green: u8, blue: u8) -> (r: Color)
        ensures
            r.value == argb(0, red, green, blue),
    {
        let value: u32 = blue as u32 | (green as u32) << 8u32 | (red as u32) << 16u32;
        let (rr, g, b) = (red as u32, green as u32, blue as u32);
        assert(b | g << 8u32 | rr << 16u32 == b + 256 * g + 65536 * rr) by (bit_vector)
            requires rr < 256, g < 256, b < 256;
        Color { value }
    }

    pub fn from_u32(value: u32) -> (r: Color)
        ensures
            r.value == value,
    {
        Color { value }
    }

    /// The 32-bit colour of a palette colour: each two-bit channel becomes
    /// the top two bits of its byte.
    pub fn from_color8(color: Color8) -> (r: Color)
        ensures
            r.value == argb(
                0,
                ((color.value / 16) % 4 * 64) as u8,
                ((color.value / 4) % 4 * 64) as u8,
                (color.value % 4 * 64) as u8,
            ),
    {
        let v: u8 = color.value;
        assert(((v >> 4u8) & 3) << 6u8 == (v / 16) % 4 * 64 && ((v >> 2u8) & 3) << 6u8 == (v / 4) % 4 * 64
            && (v & 3) << 6u8 == v % 4 * 64) by (bit_vector);
        Color::from_rgb(((v >> 4u8) & 3) << 6u8, ((v >> 2u8) & 3) << 6u8, (v & 3) << 6u8)
    }

    pub fn alpha(&self) -> (r: u8)
        ensures
            r == self.value / 16777216,
    {
        let v: u32 = self.value;
        assert(v >> 24u32 == v / 16777216) by (bit_vector);
        (v >> 24u32) as u8
    }

    pub fn red(&self) -> (r: u8)
        ensures
            r == (self.value / 65536) % 256,
    {
        let v: u32 = self.value;
        assert((v >> 16u32) & 0xFF == (v / 65536) % 256) by (bit_vector);
        ((v >> 16u32) & 0xFF) as u8
    }

    pub fn green(&self) -> (r: u8)
        ensures
            r == (self.value / 256) % 256,
    {
        let v: u32 = self.value;
        assert((v >> 8u32) & 0xFF == (v / 256) % 256) by (bit_vector);
        ((v >> 8u32) & 0xFF) as u8
    }

    pub fn blue(&self) -> (r: u8)
        ensures
            r == self.value % 256,
    {
        let v: u32 = self.value;
        assert(v & 0xFF == v % 256) by (bit_vector);
        (v & 0xFF) as u8
    }
}

/// The palette index of a colour: bits 6 and 7 of blue, green and red.
pub open spec fn color8_of(b: u8, g: u8, r: u8) -> int {
    (b / 64) % 2 + 2 * ((g / 64) % 2) + 4 * ((r / 64) % 2) + 8 * (b / 128) + 16 * (g / 128) + 32 * (r / 128)
}

impl vstd::std_specs::convert::FromSpecImpl<Color> for Color8 {
    open spec fn obeys_from_spec() -> bool {
        true
    }

    open spec fn from_spec(color: Color) -> Color8 {
        Color8 {
            value: color8_of(
                (color.value % 256) as u8,
                ((color.value / 256) % 256) as u8,
                ((color.value / 65536) % 256) as u8,
            ) as u8,
        }
    }
}

impl From<Color> for Color8 {
    /// The nearest palette colour: the top two bits of each channel.
    fn from(color: Color) -> (r: Color8)
        ensures
            r.value == color8_of(
                (color.value % 256) as u8,
                ((color.value / 256) % 256) as u8,
                ((color.value / 65536) % 256) as u8,
            ),
    {
        let b: u8 = color.blue();
        let g: u8 = color.green();
        let r: u8 = color.red();
        let mut index: u8 = 0;
        index = index | (b >> 7u8 << 3u8);
        index = index | ((b >> 6u8) & 1);
        index = index | (g >> 7u8 << 4u8);
        index = index | (((g >> 6u8) & 1) << 1u8);
        index = index | (r >> 7u8 << 5u8);
        index = index | (((r >> 6u8) & 1) << 2u8);
        assert(index == (b / 64) % 2 + 2 * ((g / 64) % 2) + 4 * ((r / 64) % 2) + 8 * (b / 128) + 16 * (g
            / 128) + 32 * (r / 128)) by (bit_vector)
            requires
                index == (0u8 | (b >> 7u8 << 3u8) | ((b >> 6u8) & 1) | (g >> 7u8 << 4u8) | (((g >> 6u8) & 1)
                    << 1u8) | (r >> 7u8 << 5u8) | (((r >> 6u8) & 1) << 2u8)),
        ;
        Color8 { value: index }
    }
}

/// A display mode: resolution and bits per pixel.
#[derive(Clone, Copy, Debug)]
pub struct DisplayMode {
    pub width: usize,
    pub height: usize,
    pub bpp: u8,
}

/// `value` held between `min` and `max`.
pub fn force_between(value: isize, min: isize, max: isize) -> (r: isize)
    ensures
        r == max_int(min_int(value as int, max as int), min as int),
{
    let v: isize = if value <= max { value } else { max };
    if v >= min { v } else { min }
}

/// The sixteen colours of the 16-colour modes.
#[derive(Clone, Copy, Debug, PartialEq, Eq, Structural)]
pub enum Color4 {
    Black,
    Blue,
    Green,
    Cyan,
    Red,
    Pink,
    Brown,
    Silver,
    Grey,
    DarkBlue,
    DarkGreen,
    DarkCyan,
    DarkRed,
    Purple,
    DarkYellow,
    White,
}

/// The palette number of a 16-colour value.
pub open spec fn color4_code(c: Color4) -> int {
    match c {
        Color4::Black => 0,
        Color4::Blue => 1,
        Color4::Green => 2,
        Color4::Cyan => 3,
        Color4::Red => 4,
        Color4::Pink => 5,
        Color4::Brown => 6,
        Color4::Silver => 7,
        Color4::Grey => 8,
        Color4::DarkBlue => 9,
        Color4::DarkGreen => 10,
        Color4::DarkCyan => 11,
        Color4::DarkRed => 12,
        Color4::Purple => 13,
        Color4::DarkYellow => 14,
        Color4::White => 15,
    }
}

/// The 32-bit colour that each palette number is shown as.
pub open spec fn color4_rgb(code: int) -> u32 {
    if code == 0 { 0x000000 }
    else if code == 1 { 0x0000FF }
    else if code == 2 { 0x00FF00 }
    else if code == 3 { 0x00FFFF }
    else if code == 4 { 0xFF0000 }
    else if code == 5 { 0xFF00FF }
    else if code == 6 { 0xFFFF00 }
    else if code == 7 { 0xBFBFBF }
    else if code == 8 { 0x7F7F7F }
    else if code == 9 { 0x00007F }
    else if code == 10 { 0x007F00 }
    else if code == 11 { 0x007F7F }
    else if code == 12 { 0x7F0000 }
    else if code == 13 { 0x7F007F }
    else if code == 14 { 0x7F7F00 }
    else { 0xFFFFFF }
}

/// The palette number that a 32-bit colour maps to: silver and grey map
/// to themselves; otherwise the top bits of blue, green and red give a
/// bright colour, and when they are all clear the next bits give a dark one.
pub open spec fn color4_code_of(v: u32) -> int {
    if v == 0xBFBFBF {
        7
    } else if v == 0x7F7F7F {
        8
    } else {
        let b = v % 256;
        let g = (v / 256) % 256;
        let r = (v / 65536) % 256;
        let high = b / 128 + 2 * (g / 128) + 4 * (r / 128);
        let low = (b / 64) % 2 + 2 * ((g / 64) % 2) + 4 * ((r / 64) % 2);
        if high == 0 {
            if low != 0 { low + 8 } else { 0 }
        } else if high == 7 {
            15
        } else {
            high
        }
    }
}

impl Color4 {
    /// The colour with palette number `code`.
    pub fn from_code(code: u8) -> (r: Color4)
        requires
            code < 16,
        ensures
            color4_code(r) == code,
    {
        match code {
            0 => Color4::Black,
            1 => Color4::Blue,
            2 => Color4::Green,
            3 => Color4::Cyan,
            4 => Color4::Red,
            5 => Color4::Pink,
            6 => Color4::Brown,
            7 => Color4::Silver,
            8 => Color4::Grey,
            9 => Color4::DarkBlue,
            10 => Color4::DarkGreen,
            11 => Color4::DarkCyan,
            12 => Color4::DarkRed,
            13 => Color4::Purple,
            14 => Color4::DarkYellow,
            _ => Color4::White,
        }
    }

    /// The palette number.
    pub fn to_code(&self) -> (r: u8)
        ensures
            r == color4_code(*self),
    {
        match self {
            Color4::Black => 0,
            Color4::Blue => 1,
            Color4::Green => 2,
            Color4::Cyan => 3,
            Color4::Red => 4,
            Color4::Pink => 5,
            Color4::Brown => 6,
            Color4::Silver => 7,
            Color4::Grey => 8,
            Color4::DarkBlue => 9,
            Color4::DarkGreen => 10,
            Color4::DarkCyan => 11,
            Color4::DarkRed => 12,
            Color4::Purple => 13,
            Color4::DarkYellow => 14,
            Color4::White => 15,
        }
    }

    /// The nearest of the sixteen colours.
    pub fn from_color(color: Color) -> (r: Color4)
        ensures
            color4_code(r) == color4_code_of(color.value),
    {
        if color.value == 0xBFBFBF {
            return Color4::Silver;
        }
        if color.value == 0x7F7F7F {
            return Color4::Grey;
        }
        let b: u8 = color.blue();
        let g: u8 = color.green();
        let r: u8 = color.red();
        let mut value: u8 = ((b >> 7u8) & 0x01) | ((g >> 6u8) & 0x02) | ((r >> 5u8) & 0x04);
        assert(((b >> 7u8) & 0x01) | ((g >> 6u8) & 0x02) | ((r >> 5u8) & 0x04) == b / 128 + 2 * (g / 128)
            + 4 * (r / 128)) by (bit_vector);
        if value == 0 {
            let low: u8 = ((b >> 6u8) & 0x01) | ((g >> 5u8) & 0x02) | ((r >> 4u8) & 0x04);
            assert(((b >> 6u8) & 0x01) | ((g >> 5u8) & 0x02) | ((r >> 4u8) & 0x04) == (b / 64) % 2 + 2 * ((g
                / 64) % 2) + 4 * ((r / 64) % 2)) by (bit_vector);
            if low != 0 {
                value = low | 0x08;
                assert(low | 0x08 == low + 8) by (bit_vector)
                    requires low < 8;
            }
        } else if value == 7 {
            value = 0x0F;
        }
        Color4::from_code(value)
    }

    /// The 32-bit colour that the palette colour is shown as.
    pub fn to_color(&self) -> (r: Color)
        ensures
            r.value == color4_rgb(color4_code(*self)),
    {
        let value: u32 = match self {
            Color4::Black => 0x000000,
            Color4::Blue => 0x0000FF,
            Color4::Green => 0x00FF00,
            Color4::Cyan => 0x00FFFF,
            Color4::Red => 0xFF0000,
            Color4::Pink => 0xFF00FF,
            Color4::Brown => 0xFFFF00,
            Color4::Silver => 0xBFBFBF,
            Color4::Grey => 0x7F7F7F,
            Color4::DarkBlue => 0x00007F,
            Color4::DarkGreen => 0x007F00,
            Color4::DarkCyan => 0x007F7F,
            Color4::DarkRed => 0x7F0000,
            Color4::Purple => 0x7F007F,
            Color4::DarkYellow => 0x7F7F00,
            Color4::White => 0xFFFFFF,
        };
        Color { value }
    }
}

/// A screen that can be drawn on, pixel by pixel.
pub trait GraphicsDriver {
    fn init(&mut self);

    fn get_full_screen_size(&self) -> Size<usize>;

    fn get_pixel(&self, x: usize, y: usize) -> Option<Color>;

    fn set_pixel(&mut self, x: usize, y: usize, color: Color) -> bool;
}

/// The whole screen as a rectangle at the origin.
pub fn full_screen_rect<G: GraphicsDriver>(driver: &G) -> (r: Rect)
    ensures
        r.left_top == point_zero(),
{
    Rect { left_top: Point::zero(), size: driver.get_full_screen_size() }
}

/// Sets every pixel of the part of `rect` that lies on the screen.
pub fn fill_rectangle<G: GraphicsDriver>(driver: &mut G, rect: Rect, color: Color)
    requires
        rect_wf(rect),
{
    let screen = full_screen_rect(driver);
    if screen.size.w > isize::MAX as usize || screen.size.h > isize::MAX as usize {
        return;
    }
    let area = screen.join(rect);
    if area == Rect::empty() {
        return;
    }
    let mut iy: isize = area.top();
    while iy < area.bottom()
        invariant
            rect_wf(area),
            area.left_top.y <= iy <= bottom_of(area),
            area.left_top.x >= 0,
            area.left_top.y >= 0,
        decreases bottom_of(area) - iy,
    {
        let mut ix: isize = area.left();
        while ix < area.right()
            invariant
                rect_wf(area),
                area.left_top.y <= iy < bottom_of(area),
                area.left_top.x <= ix <= right_of(area),
                area.left_top.x >= 0,
                area.left_top.y >= 0,
            decreases right_of(area) - ix,
        {
            driver.set_pixel(ix as usize, iy as usize, color);
            ix = ix + 1;
        }
        iy = iy + 1;
    }
}

/// Paints the whole screen with one colour.
pub fn clear_screen<G: GraphicsDriver>(driver: &mut G, color: Color) {
    let screen = full_screen_rect(driver);
    if screen.size.w > isize::MAX as usize || screen.size.h > isize::MAX as usize {
        return;
    }
    fill_rectangle(driver, screen, color);
}

} // verus!
