//! The BDF token grammar: one line of text becomes one recognized token,
//! no token (a blank line), or a lexical error. `spec_parse_line` states
//! the grammar over character sequences; `Token::parse_line` implements it.

use vstd::prelude::*;

use crate::strutil::{
    dec_i32_of, dec_u32_of, dec_usize_of, fields_of, is_number, is_number_text, parse_i32_text,
    parse_u32_text, parse_usize_text, split_fields, str_eq, trim_end_ws, trimmed_len,
};

verus! {

/// The error of reading a writing direction that is not `0`, `1` or `2`.
#[derive(Debug)]
pub struct NoSuchVariant(pub String);

impl View for NoSuchVariant {
    type V = Seq<char>;

    open spec fn view(&self) -> Seq<char> {
        self.0@
    }
}

/// A metrics writing direction, as the `METRICSSET` keyword declares it.
#[derive(Clone, Copy, Debug, PartialEq, Eq, Structural)]
pub enum WritingDirection {
    Horizontal,
    Vertical,
    Both,
}

/// The writing direction that a field denotes, if any.
pub open spec fn dir_of(s: Seq<char>) -> Option<WritingDirection> {
    if s.len() == 1 && s[0] == '0' {
        Some(WritingDirection::Horizontal)
    } else if s.len() == 1 && s[0] == '1' {
        Some(WritingDirection::Vertical)
    } else if s.len() == 1 && s[0] == '2' {
        Some(WritingDirection::Both)
    } else {
        None
    }
}

impl WritingDirection {
    /// Reads `0`, `1` or `2`; anything else is no writing direction.
    pub fn from_str(s: &str) -> (r: Result<WritingDirection, NoSuchVariant>)
        ensures
            match dir_of(s@) {
                Some(d) => r matches Ok(rd) && rd == d,
                None => r matches Err(e) && e@ == s@,
            },
    {
        let n = s.unicode_len();
        if n == 1 {
            let c = s.get_char(0);
            if c == '0' {
                return Ok(WritingDirection::Horizontal);
            }
            if c == '1' {
                return Ok(WritingDirection::Vertical);
            }
            if c == '2' {
                return Ok(WritingDirection::Both);
            }
        }
        Err(NoSuchVariant(s.to_owned()))
    }
}

/// One recognized line of a BDF document. Scalable and device widths are
/// numbers in the source text; the text is kept, validated against
/// floating-point number syntax.
#[derive(Debug)]
#[allow(inconsistent_fields)]
pub enum Token {
    StartFont { ver: String },
    Comment { comment: String },
    ContentVersion { ver: i32 },
    Font { name: String },
    Size { pt: u32, xres: u32, yres: u32 },
    FontBoundingBox { fbbx: u32, fbby: u32, xoff: i32, yoff: i32 },
    MetricsSet { dir: WritingDirection },
    SWidth { swx0: String, swy0: String },
    DWidth { dwx0: String, dwy0: String },
    SWidthVertical { swx1: String, swy1: String },
    DWidthVertical { dwx1: String, dwy1: String },
    VVector { xoff: String, yoff: String },
    StartProperties { n: usize },
    EndProperties,
    Chars { nglyphs: usize },
    StartChar { name: String },
    Encoding { enc: u32 },
    BoundingBox { bbw: u32, bbh: u32, bbxoff: i32, bbyoff: i32 },
    Bitmap,
    EndChar,
    EndFont,
}

/// The mathematical shadow of a [`Token`], text fields as sequences.
#[allow(inconsistent_fields)]
#[verifier::ext_equal]
pub enum TokenV {
    StartFont { ver: Seq<char> },
    Comment { comment: Seq<char> },
    ContentVersion { ver: i32 },
    Font { name: Seq<char> },
    Size { pt: u32, xres: u32, yres: u32 },
    FontBoundingBox { fbbx: u32, fbby: u32, xoff: i32, yoff: i32 },
    MetricsSet { dir: WritingDirection },
    SWidth { swx0: Seq<char>, swy0: Seq<char> },
    DWidth { dwx0: Seq<char>, dwy0: Seq<char> },
    SWidthVertical { swx1: Seq<char>, swy1: Seq<char> },
    DWidthVertical { dwx1: Seq<char>, dwy1: Seq<char> },
    VVector { xoff: Seq<char>, yoff: Seq<char> },
    StartProperties { n: usize },
    EndProperties,
    Chars { nglyphs: usize },
    StartChar { name: Seq<char> },
    Encoding { enc: u32 },
    BoundingBox { bbw: u32, bbh: u32, bbxoff: i32, bbyoff: i32 },
    Bitmap,
    EndChar,
    EndFont,
}

impl View for Token {
    type V = TokenV;

    open spec fn view(&self) -> TokenV {
        match self {
            Token::StartFont { ver } => TokenV::StartFont { ver: ver@ },
            Token::Comment { comment } => TokenV::Comment { comment: comment@ },
            Token::ContentVersion { ver } => TokenV::ContentVersion { ver: *ver },
            Token::Font { name } => TokenV::Font { name: name@ },
            Token::Size { pt, xres, yres } => TokenV::Size {
                pt: *pt,
                xres: *xres,
                yres: *yres,
            },
            Token::FontBoundingBox { fbbx, fbby, xoff, yoff } => TokenV::FontBoundingBox {
                fbbx: *fbbx,
                fbby: *fbby,
                xoff: *xoff,
                yoff: *yoff,
            },
            Token::MetricsSet { dir } => TokenV::MetricsSet { dir: *dir },
            Token::SWidth { swx0, swy0 } => TokenV::SWidth { swx0: swx0@, swy0: swy0@ },
            Token::DWidth { dwx0, dwy0 } => TokenV::DWidth { dwx0: dwx0@, dwy0: dwy0@ },
            Token::SWidthVertical { swx1, swy1 } => TokenV::SWidthVertical {
                swx1: swx1@,
                swy1: swy1@,
            },
            Token::DWidthVertical { dwx1, dwy1 } => TokenV::DWidthVertical {
                dwx1: dwx1@,
                dwy1: dwy1@,
            },
            Token::VVector { xoff, yoff } => TokenV::VVector { xoff: xoff@, yoff: yoff@ },
            Token::StartProperties { n } => TokenV::StartProperties { n: *n },
            Token::EndProperties => TokenV::EndProperties,
            Token::Chars { nglyphs } => TokenV::Chars { nglyphs: *nglyphs },
            Token::StartChar { name } => TokenV::StartChar { name: name@ },
            Token::Encoding { enc } => TokenV::Encoding { enc: *enc },
            Token::BoundingBox { bbw, bbh, bbxoff, bbyoff } => TokenV::BoundingBox {
                bbw: *bbw,
                bbh: *bbh,
                bbxoff: *bbxoff,
                bbyoff: *bbyoff,
            },
            Token::Bitmap => TokenV::Bitmap,
            Token::EndChar => TokenV::EndChar,
            Token::EndFont => TokenV::EndFont,
        }
    }
}

impl Clone for Token {
    fn clone(&self) -> (r: Self)
        ensures
            r == *self,
    {
        match self {
            Token::StartFont { ver } => Token::StartFont { ver: ver.clone() },
            Token::Comment { comment } => Token::Comment { comment: comment.clone() },
            Token::ContentVersion { ver } => Token::ContentVersion { ver: *ver },
            Token::Font { name } => Token::Font { name: name.clone() },
            Token::Size { pt, xres, yres } => Token::Size {
                pt: *pt,
                xres: *xres,
                yres: *yres,
            },
            Token::FontBoundingBox { fbbx, fbby, xoff, yoff } => Token::FontBoundingBox {
                fbbx: *fbbx,
                fbby: *fbby,
                xoff: *xoff,
                yoff: *yoff,
            },
            Token::MetricsSet { dir } => Token::MetricsSet { dir: *dir },
            Token::SWidth { swx0, swy0 } => Token::SWidth {
                swx0: swx0.clone(),
                swy0: swy0.clone(),
            },
            Token::DWidth { dwx0, dwy0 } => Token::DWidth {
                dwx0: dwx0.clone(),
                dwy0: dwy0.clone(),
            },
            Token::SWidthVertical { swx1, swy1 } => Token::SWidthVertical {
                swx1: swx1.clone(),
                swy1: swy1.clone(),
            },
            Token::DWidthVertical { dwx1, dwy1 } => Token::DWidthVertical {
                dwx1: dwx1.clone(),
                dwy1: dwy1.clone(),
            },
            Token::VVector { xoff, yoff } => Token::VVector {
                xoff: xoff.clone(),
                yoff: yoff.clone(),
            },
            Token::StartProperties { n } => Token::StartProperties { n: *n },
            Token::EndProperties => Token::EndProperties,
            Token::Chars { nglyphs } => Token::Chars { nglyphs: *nglyphs },
            Token::StartChar { name } => Token::StartChar { name: name.clone() },
            Token::Encoding { enc } => Token::Encoding { enc: *enc },
            Token::BoundingBox { bbw, bbh, bbxoff, bbyoff } => Token::BoundingBox {
                bbw: *bbw,
                bbh: *bbh,
                bbxoff: *bbxoff,
                bbyoff: *bbyoff,
            },
            Token::Bitmap => Token::Bitmap,
            Token::EndChar => Token::EndChar,
            Token::EndFont => Token::EndFont,
        }
    }
}

/// A lexical error: the line could not become a token.
#[derive(Debug)]
pub enum Error {
    /// Fewer fields than the tag's arguments require; holds the tag and
    /// the name of the first argument that was not there.
    MissingArgument(&'static str, &'static str),
    /// A field would not read as its argument's type; holds the tag, the
    /// argument's name, and the offending field.
    ArgumentDecodeError(&'static str, &'static str, String),
    /// Fields remain after the tag's last argument.
    ExtraTokens(&'static str),
    /// The first field of the line matches no keyword.
    UnknownTag(String),
}

/// The mathematical shadow of a lexical [`Error`].
pub enum ErrorV {
    MissingArgument(Seq<char>, Seq<char>),
    ArgumentDecodeError(Seq<char>, Seq<char>, Seq<char>),
    ExtraTokens(Seq<char>),
    UnknownTag(Seq<char>),
}

impl View for Error {
    type V = ErrorV;

    open spec fn view(&self) -> ErrorV {
        match self {
            Error::MissingArgument(tag, arg) => ErrorV::MissingArgument(tag@, arg@),
            Error::ArgumentDecodeError(tag, arg, cause) => ErrorV::ArgumentDecodeError(
                tag@,
                arg@,
                cause@,
            ),
            Error::ExtraTokens(tag) => ErrorV::ExtraTokens(tag@),
            Error::UnknownTag(tag) => ErrorV::UnknownTag(tag@),
        }
    }
}

/// One string argument after the tag.
pub open spec fn spec_one_str(fs: Seq<Seq<char>>, tag: Seq<char>, a1: Seq<char>) -> Result<
    Seq<char>,
    ErrorV,
> {
    if fs.len() < 2 {
        Err(ErrorV::MissingArgument(tag, a1))
    } else if fs.len() > 2 {
        Err(ErrorV::ExtraTokens(tag))
    } else {
        Ok(fs[1])
    }
}

/// One unsigned integer argument after the tag.
pub open spec fn spec_one_u32(fs: Seq<Seq<char>>, tag: Seq<char>, a1: Seq<char>) -> Result<
    u32,
    ErrorV,
> {
    if fs.len() < 2 {
        Err(ErrorV::MissingArgument(tag, a1))
    } else if dec_u32_of(fs[1]) is None {
        Err(ErrorV::ArgumentDecodeError(tag, a1, fs[1]))
    } else if fs.len() > 2 {
        Err(ErrorV::ExtraTokens(tag))
    } else {
        Ok(dec_u32_of(fs[1])->Some_0)
    }
}

/// One signed integer argument after the tag.
pub open spec fn spec_one_i32(fs: Seq<Seq<char>>, tag: Seq<char>, a1: Seq<char>) -> Result<
    i32,
    ErrorV,
> {
    if fs.len() < 2 {
        Err(ErrorV::MissingArgument(tag, a1))
    } else if dec_i32_of(fs[1]) is None {
        Err(ErrorV::ArgumentDecodeError(tag, a1, fs[1]))
    } else if fs.len() > 2 {
        Err(ErrorV::ExtraTokens(tag))
    } else {
        Ok(dec_i32_of(fs[1])->Some_0)
    }
}

/// One count argument after the tag.
pub open spec fn spec_one_usize(fs: Seq<Seq<char>>, tag: Seq<char>, a1: Seq<char>) -> Result<
    usize,
    ErrorV,
> {
    if fs.len() < 2 {
        Err(ErrorV::MissingArgument(tag, a1))
    } else if dec_usize_of(fs[1]) is None {
        Err(ErrorV::ArgumentDecodeError(tag, a1, fs[1]))
    } else if fs.len() > 2 {
        Err(ErrorV::ExtraTokens(tag))
    } else {
        Ok(dec_usize_of(fs[1])->Some_0)
    }
}

/// One writing-direction argument after the tag.
pub open spec fn spec_one_dir(fs: Seq<Seq<char>>, tag: Seq<char>, a1: Seq<char>) -> Result<
    WritingDirection,
    ErrorV,
> {
    if fs.len() < 2 {
        Err(ErrorV::MissingArgument(tag, a1))
    } else if dir_of(fs[1]) is None {
        Err(ErrorV::ArgumentDecodeError(tag, a1, fs[1]))
    } else if fs.len() > 2 {
        Err(ErrorV::ExtraTokens(tag))
    } else {
        Ok(dir_of(fs[1])->Some_0)
    }
}

/// No argument after the tag.
pub open spec fn spec_no_args(fs: Seq<Seq<char>>, tag: Seq<char>) -> Result<(), ErrorV> {
    if fs.len() > 1 {
        Err(ErrorV::ExtraTokens(tag))
    } else {
        Ok(())
    }
}

/// Two number arguments held as text, the shape that the width keywords
/// share.
pub open spec fn spec_parse_pair(
    fs: Seq<Seq<char>>,
    tag: Seq<char>,
    a1: Seq<char>,
    a2: Seq<char>,
) -> Result<(Seq<char>, Seq<char>), ErrorV> {
    if fs.len() < 2 {
        Err(ErrorV::MissingArgument(tag, a1))
    } else if !is_number_text(fs[1]) {
        Err(ErrorV::ArgumentDecodeError(tag, a1, fs[1]))
    } else if fs.len() < 3 {
        Err(ErrorV::MissingArgument(tag, a2))
    } else if !is_number_text(fs[2]) {
        Err(ErrorV::ArgumentDecodeError(tag, a2, fs[2]))
    } else if fs.len() > 3 {
        Err(ErrorV::ExtraTokens(tag))
    } else {
        Ok((fs[1], fs[2]))
    }
}

/// Two unsigned then two signed pixel arguments, the shape that the two
/// bounding-box keywords share.
pub open spec fn spec_parse_box(
    fs: Seq<Seq<char>>,
    tag: Seq<char>,
    a1: Seq<char>,
    a2: Seq<char>,
    a3: Seq<char>,
    a4: Seq<char>,
) -> Result<(u32, u32, i32, i32), ErrorV> {
    if fs.len() < 2 {
        Err(ErrorV::MissingArgument(tag, a1))
    } else if dec_u32_of(fs[1]) is None {
        Err(ErrorV::ArgumentDecodeError(tag, a1, fs[1]))
    } else if fs.len() < 3 {
        Err(ErrorV::MissingArgument(tag, a2))
    } else if dec_u32_of(fs[2]) is None {
        Err(ErrorV::ArgumentDecodeError(tag, a2, fs[2]))
    } else if fs.len() < 4 {
        Err(ErrorV::MissingArgument(tag, a3))
    } else if dec_i32_of(fs[3]) is None {
        Err(ErrorV::ArgumentDecodeError(tag, a3, fs[3]))
    } else if fs.len() < 5 {
        Err(ErrorV::MissingArgument(tag, a4))
    } else if dec_i32_of(fs[4]) is None {
        Err(ErrorV::ArgumentDecodeError(tag, a4, fs[4]))
    } else if fs.len() > 5 {
        Err(ErrorV::ExtraTokens(tag))
    } else {
        Ok(
            (
                dec_u32_of(fs[1])->Some_0,
                dec_u32_of(fs[2])->Some_0,
                dec_i32_of(fs[3])->Some_0,
                dec_i32_of(fs[4])->Some_0,
            ),
        )
    }
}

/// The verbatim free text of a `COMMENT` line: everything after the
/// keyword and its one separator character, the line's trailing
/// whitespace removed.
pub open spec fn comment_text(line: Seq<char>) -> Seq<char> {
    let t = trim_end_ws(line);
    if t.len() > 7 {
        t.skip(8)
    } else {
        Seq::<char>::empty()
    }
}

/// What [`Token::parse_line`] yields on `line`: the blank-line skip, the
/// token with its decoded arguments, or the first error that reading the
/// fields left to right meets.
pub open spec fn spec_parse_line(line: Seq<char>) -> Result<Option<TokenV>, ErrorV> {
    if trim_end_ws(line).len() == 0 {
        Ok(None)
    } else {
        let fs = fields_of(line);
        let tag = fs[0];
        if tag == "STARTFONT"@ {
            match spec_one_str(fs, "STARTFONT"@, "ver"@) {
                Ok(v) => Ok(Some(TokenV::StartFont { ver: v })),
                Err(e) => Err(e),
            }
        } else if tag == "COMMENT"@ {
            Ok(Some(TokenV::Comment { comment: comment_text(line) }))
        } else if tag == "CONTENTVERSION"@ {
            match spec_one_i32(fs, "CONTENTVERSION"@, "ver"@) {
                Ok(v) => Ok(Some(TokenV::ContentVersion { ver: v })),
                Err(e) => Err(e),
            }
        } else if tag == "FONT"@ {
            match spec_one_str(fs, "FONT"@, "name"@) {
                Ok(v) => Ok(Some(TokenV::Font { name: v })),
                Err(e) => Err(e),
            }
        } else if tag == "SIZE"@ {
            if fs.len() < 2 {
                Err(ErrorV::MissingArgument("SIZE"@, "pt"@))
            } else if dec_u32_of(fs[1]) is None {
                Err(ErrorV::ArgumentDecodeError("SIZE"@, "pt"@, fs[1]))
            } else if fs.len() < 3 {
                Err(ErrorV::MissingArgument("SIZE"@, "xres"@))
            } else if dec_u32_of(fs[2]) is None {
                Err(ErrorV::ArgumentDecodeError("SIZE"@, "xres"@, fs[2]))
            } else if fs.len() < 4 {
                Err(ErrorV::MissingArgument("SIZE"@, "yres"@))
            } else if dec_u32_of(fs[3]) is None {
                Err(ErrorV::ArgumentDecodeError("SIZE"@, "yres"@, fs[3]))
            } else if fs.len() > 4 {
                Err(ErrorV::ExtraTokens("SIZE"@))
            } else {
                Ok(Some(TokenV::Size {
                    pt: dec_u32_of(fs[1])->Some_0,
                    xres: dec_u32_of(fs[2])->Some_0,
                    yres: dec_u32_of(fs[3])->Some_0,
                }))
            }
        } else if tag == "FONTBOUNDINGBOX"@ {
            match spec_parse_box(fs, "FONTBOUNDINGBOX"@, "fbbx"@, "fbby"@, "xoff"@, "yoff"@) {
                Ok((w, h, x, y)) => Ok(
                    Some(TokenV::FontBoundingBox { fbbx: w, fbby: h, xoff: x, yoff: y }),
                ),
                Err(e) => Err(e),
            }
        } else if tag == "METRICSSET"@ {
            match spec_one_dir(fs, "METRICSSET"@, "dir"@) {
                Ok(d) => Ok(Some(TokenV::MetricsSet { dir: d })),
                Err(e) => Err(e),
            }
        } else if tag == "SWIDTH"@ {
            match spec_parse_pair(fs, "SWIDTH"@, "swx0"@, "swy0"@) {
                Ok((x, y)) => Ok(Some(TokenV::SWidth { swx0: x, swy0: y })),
                Err(e) => Err(e),
            }
        } else if tag == "DWIDTH"@ {
            match spec_parse_pair(fs, "DWIDTH"@, "dwx0"@, "dwy0"@) {
                Ok((x, y)) => Ok(Some(TokenV::DWidth { dwx0: x, dwy0: y })),
                Err(e) => Err(e),
            }
        } else if tag == "SWIDTH1"@ {
            match spec_parse_pair(fs, "SWIDTH1"@, "swx1"@, "swy1"@) {
                Ok((x, y)) => Ok(Some(TokenV::SWidthVertical { swx1: x, swy1: y })),
                Err(e) => Err(e),
            }
        } else if tag == "DWIDTH1"@ {
            match spec_parse_pair(fs, "DWIDTH1"@, "dwx1"@, "dwy1"@) {
                Ok((x, y)) => Ok(Some(TokenV::DWidthVertical { dwx1: x, dwy1: y })),
                Err(e) => Err(e),
            }
        } else if tag == "VVECTOR"@ {
            match spec_parse_pair(fs, "VVECTOR"@, "xoff"@, "yoff"@) {
                Ok((x, y)) => Ok(Some(TokenV::VVector { xoff: x, yoff: y })),
                Err(e) => Err(e),
            }
        } else if tag == "STARTPROPERTIES"@ {
            match spec_one_usize(fs, "STARTPROPERTIES"@, "n"@) {
                Ok(v) => Ok(Some(TokenV::StartProperties { n: v })),
                Err(e) => Err(e),
            }
        } else if tag == "ENDPROPERTIES"@ {
            match spec_no_args(fs, "ENDPROPERTIES"@) {
                Ok(_) => Ok(Some(TokenV::EndProperties)),
                Err(e) => Err(e),
            }
        } else if tag == "CHARS"@ {
            match spec_one_usize(fs, "CHARS"@, "nglyphs"@) {
                Ok(v) => Ok(Some(TokenV::Chars { nglyphs: v })),
                Err(e) => Err(e),
            }
        } else if tag == "STARTCHAR"@ {
            match spec_one_str(fs, "STARTCHAR"@, "name"@) {
                Ok(v) => Ok(Some(TokenV::StartChar { name: v })),
                Err(e) => Err(e),
            }
        } else if tag == "ENCODING"@ {
            match spec_one_u32(fs, "ENCODING"@, "enc"@) {
                Ok(v) => Ok(Some(TokenV::Encoding { enc: v })),
                Err(e) => Err(e),
            }
        } else if tag == "BBX"@ {
            match spec_parse_box(fs, "BBX"@, "bbw"@, "bbh"@, "bbxoff"@, "bbyoff"@) {
                Ok((w, h, x, y)) => Ok(
                    Some(TokenV::BoundingBox { bbw: w, bbh: h, bbxoff: x, bbyoff: y }),
                ),
                Err(e) => Err(e),
            }
        } else if tag == "BITMAP"@ {
            match spec_no_args(fs, "BITMAP"@) {
                Ok(_) => Ok(Some(TokenV::Bitmap)),
                Err(e) => Err(e),
            }
        } else if tag == "ENDCHAR"@ {
            match spec_no_args(fs, "ENDCHAR"@) {
                Ok(_) => Ok(Some(TokenV::EndChar)),
                Err(e) => Err(e),
            }
        } else if tag == "ENDFONT"@ {
            match spec_no_args(fs, "ENDFONT"@) {
                Ok(_) => Ok(Some(TokenV::EndFont)),
                Err(e) => Err(e),
            }
        } else {
            Err(ErrorV::UnknownTag(tag))
        }
    }
}

/// Whether the value `r` of the executable tokenizer agrees with the value
/// `s` of the token grammar.
pub open spec fn parse_result_matches(
    r: Result<Option<Token>, Error>,
    s: Result<Option<TokenV>, ErrorV>,
) -> bool {
    match (r, s) {
        (Ok(None), Ok(None)) => true,
        (Ok(Some(t)), Ok(Some(tv))) => t@ == tv,
        (Err(e), Err(ev)) => e@ == ev,
        _ => false,
    }
}

fn one_str(fields: &Vec<String>, tag: &'static str, a1: &'static str) -> (r: Result<
    String,
    Error,
>)
    ensures
        ({
            let s = spec_one_str(fields@.map_values(|f: String| f@), tag@, a1@);
            match (r, s) {
                (Ok(v), Ok(sv)) => v@ == sv,
                (Err(e), Err(ev)) => e@ == ev,
                _ => false,
            }
        }),
{
    let ghost fs = fields@.map_values(|f: String| f@);
    if fields.len() < 2 {
        return Err(Error::MissingArgument(tag, a1));
    }
    if fields.len() > 2 {
        return Err(Error::ExtraTokens(tag));
    }
    proof {
        assert(fs[1] == fields@[1]@);
    }
    Ok(fields[1].clone())
}

fn one_u32(fields: &Vec<String>, tag: &'static str, a1: &'static str) -> (r: Result<u32, Error>)
    ensures
        ({
            let s = spec_one_u32(fields@.map_values(|f: String| f@), tag@, a1@);
            match (r, s) {
                (Ok(v), Ok(sv)) => v == sv,
                (Err(e), Err(ev)) => e@ == ev,
                _ => false,
            }
        }),
{
    let ghost fs = fields@.map_values(|f: String| f@);
    if fields.len() < 2 {
        return Err(Error::MissingArgument(tag, a1));
    }
    proof {
        assert(fs[1] == fields@[1]@);
    }
    match parse_u32_text(fields[1].as_str()) {
        None => Err(Error::ArgumentDecodeError(tag, a1, fields[1].clone())),
        Some(v) => {
            if fields.len() > 2 {
                Err(Error::ExtraTokens(tag))
            } else {
                Ok(v)
            }
        },
    }
}

fn one_i32(fields: &Vec<String>, tag: &'static str, a1: &'static str) -> (r: Result<i32, Error>)
    ensures
        ({
            let s = spec_one_i32(fields@.map_values(|f: String| f@), tag@, a1@);
            match (r, s) {
                (Ok(v), Ok(sv)) => v == sv,
                (Err(e), Err(ev)) => e@ == ev,
                _ => false,
            }
        }),
{
    let ghost fs = fields@.map_values(|f: String| f@);
    if fields.len() < 2 {
        return Err(Error::MissingArgument(tag, a1));
    }
    proof {
        assert(fs[1] == fields@[1]@);
    }
    match parse_i32_text(fields[1].as_str()) {
        None => Err(Error::ArgumentDecodeError(tag, a1, fields[1].clone())),
        Some(v) => {
            if fields.len() > 2 {
                Err(Error::ExtraTokens(tag))
            } else {
                Ok(v)
            }
        },
    }
}

fn one_usize(fields: &Vec<String>, tag: &'static str, a1: &'static str) -> (r: Result<
    usize,
    Error,
>)
    ensures
        ({
            let s = spec_one_usize(fields@.map_values(|f: String| f@), tag@, a1@);
            match (r, s) {
                (Ok(v), Ok(sv)) => v == sv,
                (Err(e), Err(ev)) => e@ == ev,
                _ => false,
            }
        }),
{
    let ghost fs = fields@.map_values(|f: String| f@);
    if fields.len() < 2 {
        return Err(Error::MissingArgument(tag, a1));
    }
    proof {
        assert(fs[1] == fields@[1]@);
    }
    match parse_usize_text(fields[1].as_str()) {
        None => Err(Error::ArgumentDecodeError(tag, a1, fields[1].clone())),
        Some(v) => {
            if fields.len() > 2 {
                Err(Error::ExtraTokens(tag))
            } else {
                Ok(v)
            }
        },
    }
}

fn one_dir(fields: &Vec<String>, tag: &'static str, a1: &'static str) -> (r: Result<
    WritingDirection,
    Error,
>)
    ensures
        ({
            let s = spec_one_dir(fields@.map_values(|f: String| f@), tag@, a1@);
            match (r, s) {
                (Ok(v), Ok(sv)) => v == sv,
                (Err(e), Err(ev)) => e@ == ev,
                _ => false,
            }
        }),
{
    let ghost fs = fields@.map_values(|f: String| f@);
    if fields.len() < 2 {
        return Err(Error::MissingArgument(tag, a1));
    }
    proof {
        assert(fs[1] == fields@[1]@);
    }
    match WritingDirection::from_str(fields[1].as_str()) {
        Err(_) => Err(Error::ArgumentDecodeError(tag, a1, fields[1].clone())),
        Ok(d) => {
            if fields.len() > 2 {
                Err(Error::ExtraTokens(tag))
            } else {
                Ok(d)
            }
        },
    }
}

fn no_args(fields: &Vec<String>, tag: &'static str) -> (r: Result<(), Error>)
    ensures
        ({
            let s = spec_no_args(fields@.map_values(|f: String| f@), tag@);
            match (r, s) {
                (Ok(_), Ok(_)) => true,
                (Err(e), Err(ev)) => e@ == ev,
                _ => false,
            }
        }),
{
    if fields.len() > 1 {
        Err(Error::ExtraTokens(tag))
    } else {
        Ok(())
    }
}

fn pair_fields(
    fields: &Vec<String>,
    tag: &'static str,
    a1: &'static str,
    a2: &'static str,
) -> (r: Result<(String, String), Error>)
    ensures
        ({
            let s = spec_parse_pair(fields@.map_values(|f: String| f@), tag@, a1@, a2@);
            match (r, s) {
                (Ok((x, y)), Ok((sx, sy))) => x@ == sx && y@ == sy,
                (Err(e), Err(ev)) => e@ == ev,
                _ => false,
            }
        }),
{
    let ghost fs = fields@.map_values(|f: String| f@);
    if fields.len() < 2 {
        return Err(Error::MissingArgument(tag, a1));
    }
    proof {
        assert(fs[1] == fields@[1]@);
    }
    if !is_number(fields[1].as_str()) {
        return Err(Error::ArgumentDecodeError(tag, a1, fields[1].clone()));
    }
    if fields.len() < 3 {
        return Err(Error::MissingArgument(tag, a2));
    }
    proof {
        assert(fs[2] == fields@[2]@);
    }
    if !is_number(fields[2].as_str()) {
        return Err(Error::ArgumentDecodeError(tag, a2, fields[2].clone()));
    }
    if fields.len() > 3 {
        return Err(Error::ExtraTokens(tag));
    }
    Ok((fields[1].clone(), fields[2].clone()))
}

fn box_fields(
    fields: &Vec<String>,
    tag: &'static str,
    a1: &'static str,
    a2: &'static str,
    a3: &'static str,
    a4: &'static str,
) -> (r: Result<(u32, u32, i32, i32), Error>)
    ensures
        ({
            let s = spec_parse_box(fields@.map_values(|f: String| f@), tag@, a1@, a2@, a3@, a4@);
            match (r, s) {
                (Ok(v), Ok(sv)) => v == sv,
                (Err(e), Err(ev)) => e@ == ev,
                _ => false,
            }
        }),
{
    let ghost fs = fields@.map_values(|f: String| f@);
    if fields.len() < 2 {
        return Err(Error::MissingArgument(tag, a1));
    }
    proof {
        assert(fs[1] == fields@[1]@);
    }
    let w = match parse_u32_text(fields[1].as_str()) {
        None => {
            return Err(Error::ArgumentDecodeError(tag, a1, fields[1].clone()));
        },
        Some(v) => v,
    };
    if fields.len() < 3 {
        return Err(Error::MissingArgument(tag, a2));
    }
    proof {
        assert(fs[2] == fields@[2]@);
    }
    let h = match parse_u32_text(fields[2].as_str()) {
        None => {
            return Err(Error::ArgumentDecodeError(tag, a2, fields[2].clone()));
        },
        Some(v) => v,
    };
    if fields.len() < 4 {
        return Err(Error::MissingArgument(tag, a3));
    }
    proof {
        assert(fs[3] == fields@[3]@);
    }
    let x = match parse_i32_text(fields[3].as_str()) {
        None => {
            return Err(Error::ArgumentDecodeError(tag, a3, fields[3].clone()));
        },
        Some(v) => v,
    };
    if fields.len() < 5 {
        return Err(Error::MissingArgument(tag, a4));
    }
    proof {
        assert(fs[4] == fields@[4]@);
    }
    let y = match parse_i32_text(fields[4].as_str()) {
        None => {
            return Err(Error::ArgumentDecodeError(tag, a4, fields[4].clone()));
        },
        Some(v) => v,
    };
    if fields.len() > 5 {
        return Err(Error::ExtraTokens(tag));
    }
    Ok((w, h, x, y))
}

impl Token {
    /// Reads one line: a blank line is no token, a recognized keyword with
    /// well-formed arguments is a token, and anything else is an error.
    pub fn parse_line(line: &str) -> (r: Result<Option<Token>, Error>)
        ensures
            parse_result_matches(r, spec_parse_line(line@)),
    {
        let t = trimmed_len(line);
        if t == 0 {
            proof {
                assert(line@.take(0) =~= Seq::<char>::empty());
            }
            return Ok(None);
        }
        let fields = split_fields(line);
        let ghost fs = fields_of(line@);
        proof {
            assert(fields@.map_values(|f: String| f@) == fs);
            assert(fs[0] == fields@[0]@);
        }
        let tag = fields[0].as_str();
        if str_eq(tag, "STARTFONT") {
            match one_str(&fields, "STARTFONT", "ver") {
                Ok(v) => Ok(Some(Token::StartFont { ver: v })),
                Err(e) => Err(e),
            }
        } else if str_eq(tag, "COMMENT") {
            let comment = if t > 7 {
                proof {
                    assert(line@.subrange(8, t as int) =~= line@.take(t as int).skip(8));
                }
                line.substring_char(8, t).to_owned()
            } else {
                String::new()
            };
            Ok(Some(Token::Comment { comment }))
        } else if str_eq(tag, "CONTENTVERSION") {
            match one_i32(&fields, "CONTENTVERSION", "ver") {
                Ok(v) => Ok(Some(Token::ContentVersion { ver: v })),
                Err(e) => Err(e),
            }
        } else if str_eq(tag, "FONT") {
            match one_str(&fields, "FONT", "name") {
                Ok(v) => Ok(Some(Token::Font { name: v })),
                Err(e) => Err(e),
            }
        } else if str_eq(tag, "SIZE") {
            Self::parse_size(&fields)
        } else if str_eq(tag, "FONTBOUNDINGBOX") {
            match box_fields(&fields, "FONTBOUNDINGBOX", "fbbx", "fbby", "xoff", "yoff") {
                Ok((w, h, x, y)) => Ok(
                    Some(Token::FontBoundingBox { fbbx: w, fbby: h, xoff: x, yoff: y }),
                ),
                Err(e) => Err(e),
            }
        } else if str_eq(tag, "METRICSSET") {
            match one_dir(&fields, "METRICSSET", "dir") {
                Ok(d) => Ok(Some(Token::MetricsSet { dir: d })),
                Err(e) => Err(e),
            }
        } else if str_eq(tag, "SWIDTH") {
            match pair_fields(&fields, "SWIDTH", "swx0", "swy0") {
                Ok((x, y)) => Ok(Some(Token::SWidth { swx0: x, swy0: y })),
                Err(e) => Err(e),
            }
        } else if str_eq(tag, "DWIDTH") {
            match pair_fields(&fields, "DWIDTH", "dwx0", "dwy0") {
                Ok((x, y)) => Ok(Some(Token::DWidth { dwx0: x, dwy0: y })),
                Err(e) => Err(e),
            }
        } else if str_eq(tag, "SWIDTH1") {
            match pair_fields(&fields, "SWIDTH1", "swx1", "swy1") {
                Ok((x, y)) => Ok(Some(Token::SWidthVertical { swx1: x, swy1: y })),
                Err(e) => Err(e),
            }
        } else if str_eq(tag, "DWIDTH1") {
            match pair_fields(&fields, "DWIDTH1", "dwx1", "dwy1") {
                Ok((x, y)) => Ok(Some(Token::DWidthVertical { dwx1: x, dwy1: y })),
                Err(e) => Err(e),
            }
        } else if str_eq(tag, "VVECTOR") {
            match pair_fields(&fields, "VVECTOR", "xoff", "yoff") {
                Ok((x, y)) => Ok(Some(Token::VVector { xoff: x, yoff: y })),
                Err(e) => Err(e),
            }
        } else if str_eq(tag, "STARTPROPERTIES") {
            match one_usize(&fields, "STARTPROPERTIES", "n") {
                Ok(v) => Ok(Some(Token::StartProperties { n: v })),
                Err(e) => Err(e),
            }
        } else if str_eq(tag, "ENDPROPERTIES") {
            match no_args(&fields, "ENDPROPERTIES") {
                Ok(_) => Ok(Some(Token::EndProperties)),
                Err(e) => Err(e),
            }
        } else if str_eq(tag, "CHARS") {
            match one_usize(&fields, "CHARS", "nglyphs") {
                Ok(v) => Ok(Some(Token::Chars { nglyphs: v })),
                Err(e) => Err(e),
            }
        } else if str_eq(tag, "STARTCHAR") {
            match one_str(&fields, "STARTCHAR", "name") {
                Ok(v) => Ok(Some(Token::StartChar { name: v })),
                Err(e) => Err(e),
            }
        } else if str_eq(tag, "ENCODING") {
            match one_u32(&fields, "ENCODING", "enc") {
                Ok(v) => Ok(Some(Token::Encoding { enc: v })),
                Err(e) => Err(e),
            }
        } else if str_eq(tag, "BBX") {
            match box_fields(&fields, "BBX", "bbw", "bbh", "bbxoff", "bbyoff") {
                Ok((w, h, x, y)) => Ok(
                    Some(Token::BoundingBox { bbw: w, bbh: h, bbxoff: x, bbyoff: y }),
                ),
                Err(e) => Err(e),
            }
        } else if str_eq(tag, "BITMAP") {
            match no_args(&fields, "BITMAP") {
                Ok(_) => Ok(Some(Token::Bitmap)),
                Err(e) => Err(e),
            }
        } else if str_eq(tag, "ENDCHAR") {
            match no_args(&fields, "ENDCHAR") {
                Ok(_) => Ok(Some(Token::EndChar)),
                Err(e) => Err(e),
            }
        } else if str_eq(tag, "ENDFONT") {
            match no_args(&fields, "ENDFONT") {
                Ok(_) => Ok(Some(Token::EndFont)),
                Err(e) => Err(e),
            }
        } else {
            Err(Error::UnknownTag(fields[0].clone()))
        }
    }

    /// The three unsigned arguments of the `SIZE` keyword.
    fn parse_size(fields: &Vec<String>) -> (r: Result<Option<Token>, Error>)
        requires
            fields@.len() >= 1,
        ensures
            ({
                let fs = fields@.map_values(|f: String| f@);
                parse_result_matches(
                    r,
                    if fs.len() < 2 {
                        Err(ErrorV::MissingArgument("SIZE"@, "pt"@))
                    } else if dec_u32_of(fs[1]) is None {
                        Err(ErrorV::ArgumentDecodeError("SIZE"@, "pt"@, fs[1]))
                    } else if fs.len() < 3 {
                        Err(ErrorV::MissingArgument("SIZE"@, "xres"@))
                    } else if dec_u32_of(fs[2]) is None {
                        Err(ErrorV::ArgumentDecodeError("SIZE"@, "xres"@, fs[2]))
                    } else if fs.len() < 4 {
                        Err(ErrorV::MissingArgument("SIZE"@, "yres"@))
                    } else if dec_u32_of(fs[3]) is None {
                        Err(ErrorV::ArgumentDecodeError("SIZE"@, "yres"@, fs[3]))
                    } else if fs.len() > 4 {
                        Err(ErrorV::ExtraTokens("SIZE"@))
                    } else {
                        Ok(Some(TokenV::Size {
                            pt: dec_u32_of(fs[1])->Some_0,
                            xres: dec_u32_of(fs[2])->Some_0,
                            yres: dec_u32_of(fs[3])->Some_0,
                        }))
                    },
                )
            }),
    {
        let ghost fs = fields@.map_values(|f: String| f@);
        if fields.len() < 2 {
            return Err(Error::MissingArgument("SIZE", "pt"));
        }
        proof {
            assert(fs[1] == fields@[1]@);
        }
        let pt = match parse_u32_text(fields[1].as_str()) {
            None => {
                return Err(Error::ArgumentDecodeError("SIZE", "pt", fields[1].clone()));
            },
            Some(v) => v,
        };
        if fields.len() < 3 {
            return Err(Error::MissingArgument("SIZE", "xres"));
        }
        proof {
            assert(fs[2] == fields@[2]@);
        }
        let xres = match parse_u32_text(fields[2].as_str()) {
            None => {
                return Err(Error::ArgumentDecodeError("SIZE", "xres", fields[2].clone()));
            },
            Some(v) => v,
        };
        if fields.len() < 4 {
            return Err(Error::MissingArgument("SIZE", "yres"));
        }
        proof {
            assert(fs[3] == fields@[3]@);
        }
        let yres = match parse_u32_text(fields[3].as_str()) {
            None => {
                return Err(Error::ArgumentDecodeError("SIZE", "yres", fields[3].clone()));
            },
            Some(v) => v,
        };
        if fields.len() > 4 {
            return Err(Error::ExtraTokens("SIZE"));
        }
        Ok(Some(Token::Size { pt, xres, yres }))
    }
}

} // verus!
