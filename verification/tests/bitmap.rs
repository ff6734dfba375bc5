use bdf_reader::Font;

fn doc(lines: &[&str]) -> Vec<String> {
    let mut v: Vec<String> = Vec::new();
    for line in lines {
        v.push((*line).to_string());
    }
    v
}

#[test]
fn ascii_art_renders_rows_and_baseline() {
    let lines = doc(&[
        "STARTFONT 2.1",
        "FONT test",
        "SIZE 16 75 75",
        "FONTBOUNDINGBOX 2 2 0 0",
        "CHARS 1",
        "STARTCHAR corner",
        "ENCODING 1",
        "BBX 2 2 0 0",
        "BITMAP",
        "C0",
        "40",
        "ENDCHAR",
        "ENDFONT",
    ]);
    let font = Font::read(&lines).expect("well-formed document");
    let bitmap = font.glyph(1u32).unwrap().bitmap();
    // baseline = height - 1 + offset_y = 1: the separator follows row 1
    assert_eq!(bitmap.baseline(), 1);
    assert_eq!(bitmap.ascii_art(), "####\n..##\n----\n");
}

#[test]
fn ascii_art_separator_follows_the_baseline_row() {
    let lines = doc(&[
        "STARTFONT 2.1",
        "FONT test",
        "SIZE 16 75 75",
        "FONTBOUNDINGBOX 1 3 0 -1",
        "CHARS 1",
        "STARTCHAR tall",
        "ENCODING 2",
        "BBX 1 3 0 -1",
        "BITMAP",
        "80",
        "00",
        "80",
        "ENDCHAR",
        "ENDFONT",
    ]);
    let font = Font::read(&lines).expect("well-formed document");
    let bitmap = font.glyph(2u32).unwrap().bitmap();
    // baseline = 3 - 1 + (-1) = 1: one descender row below it
    assert_eq!(bitmap.baseline(), 1);
    assert_eq!(bitmap.ascii_art(), "##\n..\n--\n##\n");
}

#[test]
fn bit_order_within_a_byte_is_most_significant_first() {
    let lines = doc(&[
        "STARTFONT 2.1",
        "FONT test",
        "SIZE 16 75 75",
        "FONTBOUNDINGBOX 8 1 0 0",
        "CHARS 1",
        "STARTCHAR stripes",
        "ENCODING 3",
        "BBX 8 1 0 0",
        "BITMAP",
        "A5",
        "ENDCHAR",
        "ENDFONT",
    ]);
    let font = Font::read(&lines).expect("well-formed document");
    let bitmap = font.glyph(3u32).unwrap().bitmap();
    let expected = [true, false, true, false, false, true, false, true];
    for (x, want) in expected.iter().enumerate() {
        assert_eq!(bitmap.get(x, 0).unwrap(), *want);
    }
}

#[test]
fn covered_decides_whether_ascii_art_may_be_asked() {
    // every declared pixel stored: four declared, eight stored
    let lines = doc(&[
        "STARTFONT 2.1",
        "FONT test",
        "SIZE 16 75 75",
        "FONTBOUNDINGBOX 4 1 0 0",
        "CHARS 1",
        "STARTCHAR nibble",
        "ENCODING 5",
        "BBX 4 1 0 0",
        "BITMAP",
        "F0",
        "ENDCHAR",
        "ENDFONT",
    ]);
    let font = Font::read(&lines).expect("well-formed document");
    let bitmap = font.glyph(5u32).unwrap().bitmap();
    assert!(bitmap.covered());
    assert_eq!(bitmap.ascii_art(), "########
--------
");

    // sixteen declared, but the one byte stores only eight
    let lines = doc(&[
        "STARTFONT 2.1",
        "FONT test",
        "SIZE 16 75 75",
        "FONTBOUNDINGBOX 16 1 0 0",
        "CHARS 1",
        "STARTCHAR wide",
        "ENCODING 6",
        "BBX 16 1 0 0",
        "BITMAP",
        "F0",
        "ENDCHAR",
        "ENDFONT",
    ]);
    let font = Font::read(&lines).expect("well-formed document");
    let bitmap = font.glyph(6u32).unwrap().bitmap();
    assert!(!bitmap.covered());
}

#[test]
fn lowercase_hex_and_stray_characters_in_bitmap_rows() {
    // non-hex characters in a row are passed over
    let lines = doc(&[
        "STARTFONT 2.1",
        "FONT test",
        "SIZE 16 75 75",
        "FONTBOUNDINGBOX 8 1 0 0",
        "CHARS 1",
        "STARTCHAR x",
        "ENCODING 4",
        "BBX 8 1 0 0",
        "BITMAP",
        "f x0",
        "ENDCHAR",
        "ENDFONT",
    ]);
    let font = Font::read(&lines).expect("well-formed document");
    let bitmap = font.glyph(4u32).unwrap().bitmap();
    for x in 0..4 {
        assert_eq!(bitmap.get(x, 0).unwrap(), true, "bit {x}");
    }
    for x in 4..8 {
        assert_eq!(bitmap.get(x, 0).unwrap(), false, "bit {x}");
    }
}
