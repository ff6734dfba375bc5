use bdf_reader::{Error, Font, State, Token, Value};

fn doc(lines: &[&str]) -> Vec<String> {
    let mut v: Vec<String> = Vec::new();
    for line in lines {
        v.push((*line).to_string());
    }
    v
}

#[test]
fn end_to_end_single_glyph() {
    let lines = doc(&[
        "STARTFONT 2.1",
        "FONT test",
        "SIZE 16 75 75",
        "FONTBOUNDINGBOX 8 8 0 0",
        "CHARS 1",
        "STARTCHAR A",
        "ENCODING 65",
        "BBX 8 8 0 0",
        "BITMAP",
        "FF",
        "FF",
        "FF",
        "FF",
        "FF",
        "FF",
        "FF",
        "FF",
        "ENDCHAR",
        "ENDFONT",
    ]);
    let font = Font::read(&lines).expect("well-formed document");
    assert_eq!(font.name(), "test");
    let glyphs: &Vec<bdf_reader::Glyph> = font.glyphs();
    assert_eq!(glyphs.len(), 1);
    let glyph = font.glyph(65u32).expect("glyph 65");
    assert_eq!(glyph.encoding(), 65);
    assert_eq!(glyph.name(), "A");
    let bitmap = glyph.bitmap();
    assert_eq!(bitmap.width(), 8);
    assert_eq!(bitmap.height(), 8);
    for y in 0..8 {
        for x in 0..8 {
            assert_eq!(bitmap.get(x, y).unwrap(), true);
        }
    }
    // the same glyph is found through its character
    let by_char = font.glyph('A').expect("glyph 'A'");
    assert_eq!(by_char.encoding(), 65);
}

#[test]
fn blank_lines_and_comments_are_skipped() {
    let lines = doc(&[
        "STARTFONT 2.1",
        "",
        "COMMENT anything goes here",
        "   ",
        "FONT test",
        "SIZE 16 75 75",
        "FONTBOUNDINGBOX 8 8 0 0",
    ]);
    let font = Font::read(&lines).expect("blank lines and comments are skipped");
    assert_eq!(font.name(), "test");
}

#[test]
fn properties_with_exact_count_succeed() {
    let lines = doc(&[
        "STARTFONT 2.1",
        "FONT test",
        "SIZE 16 75 75",
        "FONTBOUNDINGBOX 8 8 0 0",
        "STARTPROPERTIES 2",
        "WEIGHT 700",
        "FOUNDRY \"misc\"",
        "ENDPROPERTIES",
    ]);
    let font = Font::read(&lines).expect("exact property count");
    assert!(matches!(font.property("WEIGHT"), Some(Value::Integer(700))));
    assert!(matches!(font.property("FOUNDRY"), Some(Value::String(s)) if s == "misc"));
    assert!(font.property("UNDECLARED").is_none());
}

#[test]
fn properties_with_too_few_lines_fail() {
    // `ENDPROPERTIES` arrives while one of the two promised lines is
    // still owed: the section is closed with its count outstanding
    let lines = doc(&[
        "STARTFONT 2.1",
        "FONT test",
        "SIZE 16 75 75",
        "FONTBOUNDINGBOX 8 8 0 0",
        "STARTPROPERTIES 2",
        "WEIGHT 700",
        "ENDPROPERTIES",
    ]);
    assert!(matches!(
        Font::read(&lines),
        Err(Error::UnexpectedEnd("Properties"))
    ));
}

#[test]
fn properties_with_too_many_lines_fail() {
    // the third line is past the promised count and is tokenized, and no
    // keyword starts with a property key
    let lines = doc(&[
        "STARTFONT 2.1",
        "FONT test",
        "SIZE 16 75 75",
        "FONTBOUNDINGBOX 8 8 0 0",
        "STARTPROPERTIES 2",
        "WEIGHT 700",
        "SLANT 0",
        "SETWIDTH 5",
        "ENDPROPERTIES",
    ]);
    assert!(matches!(
        Font::read(&lines),
        Err(Error::SyntaxError(bdf_reader::tokens::Error::UnknownTag(tag))) if tag == "SETWIDTH"
    ));
}

#[test]
fn quoted_property_value_decodes_doubled_quotes() {
    let lines = doc(&[
        "STARTFONT 2.1",
        "FONT test",
        "SIZE 16 75 75",
        "FONTBOUNDINGBOX 8 8 0 0",
        "STARTPROPERTIES 1",
        "NOTE \"a\"\"b\"",
        "ENDPROPERTIES",
    ]);
    let font = Font::read(&lines).expect("quoted property");
    assert!(matches!(font.property("NOTE"), Some(Value::String(s)) if s == "a\"b"));
}

#[test]
fn endchar_with_rows_remaining_fails() {
    let lines = doc(&[
        "STARTFONT 2.1",
        "FONT test",
        "SIZE 16 75 75",
        "FONTBOUNDINGBOX 8 8 0 0",
        "CHARS 1",
        "STARTCHAR A",
        "ENCODING 65",
        "BBX 8 8 0 0",
        "BITMAP",
        "FF",
        "FF",
        "ENDCHAR",
    ]);
    assert!(matches!(
        Font::read(&lines),
        Err(Error::UnexpectedEnd("Char"))
    ));
}

#[test]
fn bitmap_row_padding_bounds() {
    // a declared width of 4 with the row F0: the byte stores eight bits,
    // but the declared width bounds the lookup
    let lines = doc(&[
        "STARTFONT 2.1",
        "FONT test",
        "SIZE 16 75 75",
        "FONTBOUNDINGBOX 4 1 0 0",
        "CHARS 1",
        "STARTCHAR bar",
        "ENCODING 1",
        "BBX 4 1 0 0",
        "BITMAP",
        "F0",
        "ENDCHAR",
        "ENDFONT",
    ]);
    let font = Font::read(&lines).expect("well-formed document");
    let bitmap = font.glyph(1u32).unwrap().bitmap();
    for x in 0..4 {
        assert_eq!(bitmap.get(x, 0).unwrap(), true);
    }
    assert!(bitmap.get(4, 0).is_err());
    assert!(bitmap.get(100, 0).is_err());
    assert!(bitmap.get(0, 1).is_err());
}

#[test]
fn duplicate_encoding_keeps_the_later_glyph() {
    let lines = doc(&[
        "STARTFONT 2.1",
        "FONT test",
        "SIZE 16 75 75",
        "FONTBOUNDINGBOX 1 1 0 0",
        "CHARS 2",
        "STARTCHAR first",
        "ENCODING 7",
        "BITMAP",
        "00",
        "ENDCHAR",
        "STARTCHAR second",
        "ENCODING 7",
        "BITMAP",
        "80",
        "ENDCHAR",
        "ENDFONT",
    ]);
    let font = Font::read(&lines).expect("well-formed document");
    assert_eq!(font.glyphs().len(), 1);
    let glyph = font.glyph(7u32).unwrap();
    assert_eq!(glyph.name(), "second");
    assert_eq!(glyph.bitmap().get(0, 0).unwrap(), true);
}

#[test]
fn glyphs_iterate_in_encoding_order() {
    let lines = doc(&[
        "STARTFONT 2.1",
        "FONT test",
        "SIZE 16 75 75",
        "FONTBOUNDINGBOX 1 1 0 0",
        "CHARS 2",
        "STARTCHAR b",
        "ENCODING 66",
        "BITMAP",
        "00",
        "ENDCHAR",
        "STARTCHAR a",
        "ENCODING 65",
        "BITMAP",
        "00",
        "ENDCHAR",
        "ENDFONT",
    ]);
    let font = Font::read(&lines).expect("well-formed document");
    let glyphs = font.glyphs();
    assert_eq!(glyphs.len(), 2);
    assert_eq!(glyphs[0].encoding(), 65);
    assert_eq!(glyphs[1].encoding(), 66);
}

#[test]
fn glyph_inherits_and_overrides_font_metrics() {
    let lines = doc(&[
        "STARTFONT 2.1",
        "CONTENTVERSION 3",
        "FONT test",
        "SIZE 16 75 75",
        "FONTBOUNDINGBOX 2 1 0 0",
        "SWIDTH 500 0",
        "DWIDTH 8 0",
        "CHARS 2",
        "STARTCHAR inherits",
        "ENCODING 1",
        "BITMAP",
        "00",
        "ENDCHAR",
        "STARTCHAR overrides",
        "ENCODING 2",
        "SWIDTH 1000 0",
        "DWIDTH 16 0",
        "BBX 1 1 0 0",
        "BITMAP",
        "80",
        "ENDCHAR",
        "ENDFONT",
    ]);
    let font = Font::read(&lines).expect("well-formed document");
    assert_eq!(font.version(), Some(3));
    assert_eq!(font.size().pt, 16);
    assert_eq!(font.bounding_box().width, 2);

    let inherits = font.glyph(1u32).unwrap();
    assert_eq!(inherits.swidth(), Some(("500".to_string(), "0".to_string())));
    assert_eq!(inherits.dwidth(), Some(("8".to_string(), "0".to_string())));
    assert_eq!(inherits.bounding_box().width, 2);

    let overrides = font.glyph(2u32).unwrap();
    assert_eq!(
        overrides.swidth(),
        Some(("1000".to_string(), "0".to_string()))
    );
    assert_eq!(overrides.dwidth(), Some(("16".to_string(), "0".to_string())));
    assert_eq!(overrides.bounding_box().width, 1);
}

#[test]
fn tokens_out_of_context_fail() {
    let lines = doc(&["FONT early"]);
    assert!(matches!(
        Font::read(&lines),
        Err(Error::InvalidContext(_, bdf_reader::State::Initial, "Font"))
    ));

    let lines = doc(&["STARTFONT 2.1", "ENCODING 65"]);
    assert!(matches!(
        Font::read(&lines),
        Err(Error::InvalidContext(_, bdf_reader::State::Font, "Glyph"))
    ));
}

#[test]
fn endfont_with_glyphs_remaining_fails() {
    let lines = doc(&[
        "STARTFONT 2.1",
        "FONT test",
        "SIZE 16 75 75",
        "FONTBOUNDINGBOX 8 8 0 0",
        "CHARS 1",
        "ENDFONT",
    ]);
    assert!(matches!(
        Font::read(&lines),
        Err(Error::UnexpectedEnd("Font"))
    ));
}

#[test]
fn missing_font_fields_are_reported() {
    let lines = doc(&["STARTFONT 2.1"]);
    assert!(matches!(Font::read(&lines), Err(Error::MissingFontName)));

    let lines = doc(&["STARTFONT 2.1", "FONT test"]);
    assert!(matches!(
        Font::read(&lines),
        Err(Error::MissingFontBoundingBox)
    ));

    let lines = doc(&["STARTFONT 2.1", "FONT test", "FONTBOUNDINGBOX 8 8 0 0"]);
    assert!(matches!(Font::read(&lines), Err(Error::MissingFontSize)));
}

#[test]
fn missing_glyph_fields_are_reported() {
    let lines = doc(&[
        "STARTFONT 2.1",
        "FONT test",
        "SIZE 16 75 75",
        "CHARS 1",
        "STARTCHAR A",
        "BITMAP",
    ]);
    assert!(matches!(
        Font::read(&lines),
        Err(Error::MissingGlyphBoundingBox)
    ));

    let lines = doc(&[
        "STARTFONT 2.1",
        "FONT test",
        "SIZE 16 75 75",
        "FONTBOUNDINGBOX 1 1 0 0",
        "CHARS 1",
        "STARTCHAR A",
        "BITMAP",
        "00",
        "ENDCHAR",
    ]);
    assert!(matches!(
        Font::read(&lines),
        Err(Error::MissingGlyphEncoding)
    ));
}

#[test]
fn invalid_bitmap_line_fails() {
    let lines = doc(&[
        "STARTFONT 2.1",
        "FONT test",
        "SIZE 16 75 75",
        "FONTBOUNDINGBOX 1 1 0 0",
        "CHARS 1",
        "STARTCHAR A",
        "ENCODING 65",
        "BITMAP",
        "F",
        "ENDCHAR",
    ]);
    assert!(matches!(
        Font::read(&lines),
        Err(Error::InvalidBitmapValue(s)) if s == "F"
    ));
}

#[test]
fn unquoted_property_text_fails() {
    let lines = doc(&[
        "STARTFONT 2.1",
        "FONT test",
        "SIZE 16 75 75",
        "FONTBOUNDINGBOX 1 1 0 0",
        "STARTPROPERTIES 1",
        "FOUNDRY misc",
        "ENDPROPERTIES",
    ]);
    assert!(matches!(
        Font::read(&lines),
        Err(Error::InvalidPropertyValue(s)) if s == "misc"
    ));
}

#[test]
fn unsupported_features_are_refused() {
    let lines = doc(&["STARTFONT 2.1", "METRICSSET 1"]);
    assert!(matches!(
        Font::read(&lines),
        Err(Error::Unsupported("METRICSSET"))
    ));

    let lines = doc(&["STARTFONT 2.1", "SWIDTH1 1000 0"]);
    assert!(matches!(Font::read(&lines), Err(Error::Unsupported("SWIDTH1"))));

    let lines = doc(&["STARTFONT 2.1", "DWIDTH1 16 0"]);
    assert!(matches!(Font::read(&lines), Err(Error::Unsupported("DWIDTH1"))));

    let lines = doc(&["STARTFONT 2.1", "VVECTOR 1 1"]);
    assert!(matches!(Font::read(&lines), Err(Error::Unsupported("VVECTOR"))));
}

#[test]
fn lexical_errors_abort_the_parse() {
    let lines = doc(&["STARTFONT 2.1", "SIZE sixteen 75 75"]);
    assert!(matches!(
        Font::read(&lines),
        Err(Error::SyntaxError(
            bdf_reader::tokens::Error::ArgumentDecodeError("SIZE", "pt", _)
        ))
    ));
}

#[test]
fn state_assertions() {
    let tok = Token::Bitmap;
    assert!(State::Initial.assert_initial(&tok).is_ok());
    assert!(State::Font.assert_font(&tok).is_ok());
    assert_eq!(State::Properties { len: 4 }.assert_properties(&tok).unwrap(), 4);
    assert_eq!(State::Chars { len: 3 }.assert_chars(&tok).unwrap(), 3);
    assert_eq!(State::Glyph { chars: 1 }.assert_glyph(&tok).unwrap(), 1);
    assert_eq!(State::Bitmap { chars: 2, len: 5 }.assert_bitmap(&tok).unwrap(), (2, 5));
    assert!(matches!(
        State::Initial.assert_font(&tok),
        Err(Error::InvalidContext(_, State::Initial, "Font"))
    ));
    assert!(matches!(
        State::Final.assert_chars(&tok),
        Err(Error::InvalidContext(_, State::Final, "Chars"))
    ));
}
