use cpulamp::bitmap_to_braille;

#[test]
fn braille() {
    assert_eq!(bitmap_to_braille(0b00_00_00_00), '\u{2800}');
    assert_eq!(bitmap_to_braille(0b00_00_00_01), '\u{2801}');
    assert_eq!(bitmap_to_braille(0b00_00_00_10), '\u{2808}');
    assert_eq!(bitmap_to_braille(0b00_00_01_00), '\u{2802}');
    assert_eq!(bitmap_to_braille(0b00_00_10_00), '\u{2810}');
    assert_eq!(bitmap_to_braille(0b00_01_00_00), '\u{2804}');
    assert_eq!(bitmap_to_braille(0b00_10_00_00), '\u{2820}');
    assert_eq!(bitmap_to_braille(0b01_00_00_00), '\u{2840}');
    assert_eq!(bitmap_to_braille(0b10_00_00_00), '\u{2880}');
    for i in 0..=255 {
        bitmap_to_braille(i);
    }
}

#[test]
fn braille_known_vectors() {
    let base = 0x2800u32;
    assert_eq!(bitmap_to_braille(0b0000_0001) as u32, base + 1);
    assert_eq!(bitmap_to_braille(0b0000_0010) as u32, base + 8);
    assert_eq!(bitmap_to_braille(0b0000_0100) as u32, base + 2);
    assert_eq!(bitmap_to_braille(0b0100_0000) as u32, base + 64);
    assert_eq!(bitmap_to_braille(0b1000_0000) as u32, base + 128);
}

#[test]
fn braille_bijection() {
    let mut seen = [false; 256];
    for i in 0..=255u16 {
        let c = bitmap_to_braille(i as u8) as u32;
        assert!((0x2800..=0x28ff).contains(&c));
        let off = (c - 0x2800) as usize;
        assert!(!seen[off], "glyph reused");
        seen[off] = true;
    }
    assert_eq!(bitmap_to_braille(0x00), '\u{2800}');
    assert_eq!(bitmap_to_braille(0xff), '\u{28ff}');
}
