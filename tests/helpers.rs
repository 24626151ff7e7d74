use os64::graphics::{force_between, Color, Color4, Color8, Point, Rect, Size};
use os64::mouse::{Mouse, MouseAction};
use os64::octant::Octant;
use os64::page_key::PageKey;
use os64::ring_buffer::RingBuffer;

fn rect(x: isize, y: isize, w: usize, h: usize) -> Rect {
    Rect { left_top: Point { x, y }, size: Size { w, h } }
}

#[test]
fn rect_edges_and_intersection() {
    let a = rect(0, 0, 100, 50);
    assert_eq!(a.right(), 100);
    assert_eq!(a.bottom(), 50);
    let b = rect(60, 20, 100, 100);
    assert_eq!(a.join(b), rect(60, 20, 40, 30));
    assert_eq!(a.join(rect(200, 0, 10, 10)), Rect::empty());
}

#[test]
fn rect_contains_points() {
    let a = rect(10, 20, 5, 5);
    assert!(a.contains(&Point { x: 10, y: 20 }));
    assert!(a.contains(&Point { x: 14, y: 24 }));
    assert!(!a.contains(&Point { x: 15, y: 22 }));
    assert!(!a.contains(&Point { x: 12, y: 25 }));
    assert!(Point { x: 12, y: 22 }.inside(&a));
}

#[test]
fn colors_split_into_channels() {
    let c = Color::from_argb(0x11, 0x22, 0x33, 0x44);
    assert_eq!(c.value, 0x1122_3344);
    assert_eq!((c.alpha(), c.red(), c.green(), c.blue()), (0x11, 0x22, 0x33, 0x44));
    assert_eq!(Color::from_rgb(0xFF, 0, 0x80).value, 0xFF0080);
    assert_eq!(Color::from_u32(7).value, 7);
    assert_eq!(Color::from_color8(Color8 { value: 0b11_01_10 }).value, 0xC0_40_80);
}

#[test]
fn colors_map_to_palettes() {
    assert_eq!(Color8::from(Color::from_rgb(0xFF, 0xFF, 0xFF)).value, 0x3F);
    assert_eq!(Color8::from(Color::from_rgb(0x40, 0x80, 0xC0)).value, 8 + 1 + 16 + 4);
    assert_eq!(Color4::from_color(Color::from_u32(0xBFBFBF)), Color4::Silver);
    assert_eq!(Color4::from_color(Color::from_u32(0x7F7F7F)), Color4::Grey);
    assert_eq!(Color4::from_color(Color::from_u32(0xFF0000)), Color4::Red);
    assert_eq!(Color4::from_color(Color::from_u32(0xFFFFFF)), Color4::White);
    assert_eq!(Color4::from_color(Color::from_u32(0x00007F)), Color4::DarkBlue);
    assert_eq!(Color4::from_color(Color::from_u32(0x000000)), Color4::Black);
    assert_eq!(Color4::DarkRed.to_color().value, 0x7F0000);
    assert_eq!(Color4::White.to_code(), 15);
}

#[test]
fn force_between_clamps() {
    assert_eq!(force_between(5, 0, 10), 5);
    assert_eq!(force_between(-5, 0, 10), 0);
    assert_eq!(force_between(50, 0, 10), 10);
}

#[test]
fn octants_of_lines() {
    let o = |x: isize, y: isize| Octant::new(Point { x: 0, y: 0 }, Point { x, y }).value;
    assert_eq!(o(10, 3), 0);
    assert_eq!(o(3, 10), 1);
    assert_eq!(o(-3, 10), 2);
    assert_eq!(o(-10, 3), 3);
    assert_eq!(o(-10, -3), 4);
    assert_eq!(o(-3, -10), 5);
    assert_eq!(o(3, -10), 6);
    assert_eq!(o(10, -3), 7);
    for v in 0..8u8 {
        let oct = Octant { value: v };
        let p = Point { x: 7, y: -3 };
        assert_eq!(oct.from(oct.to(p)), p);
    }
}

#[test]
fn ring_buffer_is_fifo_and_bounded() {
    let mut rb = RingBuffer::new(0u8);
    assert!(rb.is_empty());
    assert_eq!(rb.pop(), None);
    for i in 0..240u32 {
        assert!(rb.push(i as u8));
    }
    assert!(!rb.push(99));
    assert_eq!(rb.pop(), Some(0));
    assert!(rb.push(100));
    for i in 1..240u32 {
        assert_eq!(rb.pop(), Some(i as u8));
    }
    assert_eq!(rb.pop(), Some(100));
    assert!(rb.is_empty());
}

#[test]
fn mouse_packets_make_actions() {
    let mut m = Mouse::new();
    assert_eq!(m.process_packet(0x00), None);
    assert_eq!(m.process_packet(0x09), None);
    assert_eq!(m.process_packet(5), None);
    let a = m.process_packet(3).expect("complete");
    assert!(a.left_button_down());
    assert!(a.right_button_up());
    assert_eq!((a.get_dx(), a.get_dy()), (5, 3));
    assert!(a.moved());
    assert_eq!(m.get_action(), a);
    m.process_packet(0x08 | 0x10 | 0x20);
    m.process_packet(0xFE);
    let b = m.process_packet(0xFF).expect("complete");
    assert_eq!((b.dx, b.dy), (-2, -1));
    m.process_packet(0x08 | 0x40);
    m.process_packet(0x10);
    let c = m.process_packet(0);
    assert_eq!(c.map(|c| (c.dx, c.dy)), Some((-2, 0)));
    assert!(!MouseAction::new().moved());
}

#[test]
fn page_keys_encode_levels_and_indices() {
    let k = PageKey::from(1, 3, 5, 7, 9);
    assert_eq!(k.value, (1u64 << 60) | (3 << 39) | (5 << 30) | (7 << 21));
    assert_eq!(k.level(), 1);
    assert_eq!(k.index(), 7 >> 0 & 0x1FF);
    let top = PageKey::from(4, 1, 1, 1, 1);
    assert_eq!(top.value, 4u64 << 60);
    let va: u64 = (3 << 39) | (5 << 30) | (7 << 21) | (9 << 12) | 0x123;
    let sub = top.get_sub_key(va).expect("sub");
    assert_eq!(sub.value, (3u64 << 60) | (3 << 39));
    assert_eq!(PageKey::from_virtual_address(0, va).value, (9u64 << 12) | (7 << 21) | (5 << 30) | (3 << 39));
    assert_eq!(PageKey::from(0, 1, 2, 3, 4).get_sub_key(va), None);
}
