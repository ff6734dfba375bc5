use bdf_reader::tokens::Error;
use bdf_reader::{Token, WritingDirection};

#[test]
fn test_token_parse_startfont() {
    match Token::parse_line("STARTFONT 2.1").unwrap().unwrap() {
        Token::StartFont { ver } => assert_eq!(ver, "2.1"),
        t => panic!("wrong token: {:?}", t),
    }
}

#[test]
fn test_token_parse_comment() {
    match Token::parse_line("COMMENT hello world").unwrap().unwrap() {
        Token::Comment { comment } => assert_eq!(comment, "hello world"),
        t => panic!("wrong token: {:?}", t),
    }
}

#[test]
fn comment_keeps_its_remainder_verbatim() {
    // everything after the keyword and its one separator is kept as is
    match Token::parse_line("COMMENT  two  spaces	and a tab").unwrap().unwrap() {
        Token::Comment { comment } => assert_eq!(comment, " two  spaces	and a tab"),
        t => panic!("wrong token: {:?}", t),
    }
    match Token::parse_line("COMMENT").unwrap().unwrap() {
        Token::Comment { comment } => assert_eq!(comment, ""),
        t => panic!("wrong token: {:?}", t),
    }
}

#[test]
fn test_token_parse_contentversion() {
    match Token::parse_line("CONTENTVERSION 1").unwrap().unwrap() {
        Token::ContentVersion { ver } => assert_eq!(ver, 1),
        t => panic!("wrong token: {:?}", t),
    }
}

#[test]
fn test_token_parse_font() {
    match Token::parse_line("FONT font-name").unwrap().unwrap() {
        Token::Font { name } => assert_eq!(name, "font-name"),
        t => panic!("wrong token: {:?}", t),
    }
}

#[test]
fn test_token_parse_size() {
    match Token::parse_line("SIZE 16 75 75").unwrap().unwrap() {
        Token::Size { pt, xres, yres } => {
            assert_eq!(pt, 16);
            assert_eq!(xres, 75);
            assert_eq!(yres, 75);
        }
        t => panic!("wrong token: {:?}", t),
    }
}

#[test]
fn test_token_parse_fontboundingbox() {
    match Token::parse_line("FONTBOUNDINGBOX 16 16 0 -2").unwrap().unwrap() {
        Token::FontBoundingBox { fbbx, fbby, xoff, yoff } => {
            assert_eq!(fbbx, 16);
            assert_eq!(fbby, 16);
            assert_eq!(xoff, 0);
            assert_eq!(yoff, -2);
        }
        t => panic!("wrong token: {:?}", t),
    }
}

#[test]
fn test_token_parse_metricsset() {
    for (line, expected) in [
        ("METRICSSET 0", WritingDirection::Horizontal),
        ("METRICSSET 1", WritingDirection::Vertical),
        ("METRICSSET 2", WritingDirection::Both),
    ] {
        match Token::parse_line(line).unwrap().unwrap() {
            Token::MetricsSet { dir } => assert_eq!(dir, expected),
            t => panic!("wrong token: {:?}", t),
        }
    }
}

#[test]
fn test_token_parse_swidth() {
    match Token::parse_line("SWIDTH 1000 0").unwrap().unwrap() {
        Token::SWidth { swx0, swy0 } => {
            assert_eq!(swx0, "1000");
            assert_eq!(swy0, "0");
        }
        t => panic!("wrong token: {:?}", t),
    }
}

#[test]
fn test_token_parse_dwidth() {
    match Token::parse_line("DWIDTH 16 0").unwrap().unwrap() {
        Token::DWidth { dwx0, dwy0 } => {
            assert_eq!(dwx0, "16");
            assert_eq!(dwy0, "0");
        }
        t => panic!("wrong token: {:?}", t),
    }
}

#[test]
fn test_token_parse_swidthvertical() {
    match Token::parse_line("SWIDTH1 1000 0").unwrap().unwrap() {
        Token::SWidthVertical { swx1, swy1 } => {
            assert_eq!(swx1, "1000");
            assert_eq!(swy1, "0");
        }
        t => panic!("wrong token: {:?}", t),
    }
}

#[test]
fn test_token_parse_dwidthvertical() {
    match Token::parse_line("DWIDTH1 16 0").unwrap().unwrap() {
        Token::DWidthVertical { dwx1, dwy1 } => {
            assert_eq!(dwx1, "16");
            assert_eq!(dwy1, "0");
        }
        t => panic!("wrong token: {:?}", t),
    }
}

#[test]
fn test_token_parse_vvector() {
    match Token::parse_line("VVECTOR 1 1").unwrap().unwrap() {
        Token::VVector { xoff, yoff } => {
            assert_eq!(xoff, "1");
            assert_eq!(yoff, "1");
        }
        t => panic!("wrong token: {:?}", t),
    }
}

#[test]
fn test_token_parse_startproperties() {
    match Token::parse_line("STARTPROPERTIES 1").unwrap().unwrap() {
        Token::StartProperties { n } => assert_eq!(n, 1),
        t => panic!("wrong token: {:?}", t),
    }
}

#[test]
fn test_token_parse_endproperties() {
    assert!(matches!(
        Token::parse_line("ENDPROPERTIES").unwrap().unwrap(),
        Token::EndProperties
    ));
}

#[test]
fn test_token_parse_chars() {
    match Token::parse_line("CHARS 1").unwrap().unwrap() {
        Token::Chars { nglyphs } => assert_eq!(nglyphs, 1),
        t => panic!("wrong token: {:?}", t),
    }
}

#[test]
fn test_token_parse_startchar() {
    match Token::parse_line("STARTCHAR U+0041").unwrap().unwrap() {
        Token::StartChar { name } => assert_eq!(name, "U+0041"),
        t => panic!("wrong token: {:?}", t),
    }
}

#[test]
fn test_token_parse_encoding() {
    match Token::parse_line("ENCODING 65").unwrap().unwrap() {
        Token::Encoding { enc } => assert_eq!(enc, 65),
        t => panic!("wrong token: {:?}", t),
    }
}

#[test]
fn test_token_parse_boundingbox() {
    match Token::parse_line("BBX 16 16 0 -2").unwrap().unwrap() {
        Token::BoundingBox { bbw, bbh, bbxoff, bbyoff } => {
            assert_eq!(bbw, 16);
            assert_eq!(bbh, 16);
            assert_eq!(bbxoff, 0);
            assert_eq!(bbyoff, -2);
        }
        t => panic!("wrong token: {:?}", t),
    }
}

#[test]
fn test_token_parse_bitmap() {
    assert!(matches!(
        Token::parse_line("BITMAP").unwrap().unwrap(),
        Token::Bitmap
    ));
}

#[test]
fn test_token_parse_endchar() {
    assert!(matches!(
        Token::parse_line("ENDCHAR").unwrap().unwrap(),
        Token::EndChar
    ));
}

#[test]
fn test_token_parse_endfont() {
    assert!(matches!(
        Token::parse_line("ENDFONT").unwrap().unwrap(),
        Token::EndFont
    ));
}

#[test]
fn blank_line_yields_no_token() {
    assert!(matches!(Token::parse_line(""), Ok(None)));
    assert!(matches!(Token::parse_line("   "), Ok(None)));
    assert!(matches!(Token::parse_line("\t \t"), Ok(None)));
}

#[test]
fn unknown_tag_is_an_error() {
    assert!(matches!(
        Token::parse_line("GARBAGE 1 2"),
        Err(Error::UnknownTag(tag)) if tag == "GARBAGE"
    ));
}

#[test]
fn missing_argument_is_an_error() {
    assert!(matches!(
        Token::parse_line("SIZE 16 75"),
        Err(Error::MissingArgument("SIZE", "yres"))
    ));
}

#[test]
fn bad_argument_is_an_error() {
    assert!(matches!(
        Token::parse_line("SIZE sixteen 75 75"),
        Err(Error::ArgumentDecodeError("SIZE", "pt", field)) if field == "sixteen"
    ));
    assert!(matches!(
        Token::parse_line("SWIDTH abc 0"),
        Err(Error::ArgumentDecodeError("SWIDTH", "swx0", field)) if field == "abc"
    ));
    assert!(matches!(
        Token::parse_line("METRICSSET 3"),
        Err(Error::ArgumentDecodeError("METRICSSET", "dir", field)) if field == "3"
    ));
}

#[test]
fn extra_tokens_are_an_error() {
    assert!(matches!(
        Token::parse_line("ENDFONT extra"),
        Err(Error::ExtraTokens("ENDFONT"))
    ));
    assert!(matches!(
        Token::parse_line("ENCODING 65 66"),
        Err(Error::ExtraTokens("ENCODING"))
    ));
}

#[test]
fn width_arguments_accept_number_syntax() {
    match Token::parse_line("SWIDTH 10.5 -2e3").unwrap().unwrap() {
        Token::SWidth { swx0, swy0 } => {
            assert_eq!(swx0, "10.5");
            assert_eq!(swy0, "-2e3");
        }
        t => panic!("wrong token: {:?}", t),
    }
}

#[test]
fn signed_arguments_accept_plus_and_minus() {
    match Token::parse_line("BBX 8 8 +1 -129").unwrap().unwrap() {
        Token::BoundingBox { bbxoff, bbyoff, .. } => {
            assert_eq!(bbxoff, 1);
            assert_eq!(bbyoff, -129);
        }
        t => panic!("wrong token: {:?}", t),
    }
}

#[test]
fn writing_direction_from_str() {
    assert!(matches!(
        WritingDirection::from_str("0"),
        Ok(WritingDirection::Horizontal)
    ));
    assert!(matches!(
        WritingDirection::from_str("3"),
        Err(e) if e.0 == "3"
    ));
}
